//! Why the reconciliation converges: what holds of the machine and the catalog between
//! any two operations, and what follows from it when the machine has finished.

use crate::database_sync::{answers, keyed_albums, keyed_artists, keyed_songs, page_end};
use crate::keys::{distinct, keeps, lemma_position, lemma_position_of, position, unseen, Key};
use crate::matching::{
    adds_ok, claimed, lemma_adds_begin, lemma_adds_end, lemma_adds_next, lemma_claim, lemma_drop,
    lemma_level_done, lemma_push, lemma_same_keys_end, lemma_same_keys_row, level_ok, same_keys,
};
use crate::plan::{missing, row_keys, stale, RowKey};
use crate::queries::{
    album_place, holds_album, holds_artist, holds_song, song_place, well_kept, AlbumRec,
    ArtistRec, Stored,
};
use crate::reconciler::{
    aborted, add_albums, add_artists, advance, album_in_range, albums_in_range, artist_in_range,
    artists_in_range, consistent, finish_album, finish_artist, resume_albums, resume_artists,
    resume_songs, Awaiting, Progress, Reply, Request,
};
use crate::tree::{album_names, artist_names, song_paths, well_formed, DiskAlbum, DiskArtist};
use vstd::prelude::*;

verus! {

/// A stored album mirrors an album on disk: it has its name, and the paths of its songs
/// are the paths of the songs on disk, none of them twice.
pub open spec fn album_mirrors(rec: AlbumRec, d: DiskAlbum) -> bool {
    rec.name == d.name && same_keys(row_keys(keyed_songs(rec)), song_paths(d))
}

/// A stored artist mirrors an artist on disk: it has its name, the names of its albums
/// are the names of the albums on disk, none of them twice, and each stored album
/// mirrors the album of its name.
pub open spec fn artist_mirrors(rec: ArtistRec, d: DiskArtist) -> bool {
    &&& rec.name == d.name
    &&& same_keys(row_keys(keyed_albums(rec)), album_names(d))
    &&& forall|y: int|
        0 <= y < rec.albums.len() ==> album_mirrors(
            #[trigger] rec.albums[y],
            d.albums[position(album_names(d), rec.albums[y].name)->0],
        )
}

/// The stored artists mirror the tree on disk: their names are the names of the artists
/// on disk, none of them twice, and each stored artist mirrors the artist of its name.
pub open spec fn mirrors(artists: Seq<ArtistRec>, t: Seq<DiskArtist>) -> bool {
    &&& same_keys(row_keys(keyed_artists(artists)), artist_names(t))
    &&& forall|i: int|
        0 <= i < artists.len() ==> artist_mirrors(
            #[trigger] artists[i],
            t[position(artist_names(t), artists[i].name)->0],
        )
}

/// The rows from the cursor on are the stored rows from place `n` on, one for one.
pub open spec fn rows_ahead(rows: Seq<RowKey>, pos: int, nodes: Seq<RowKey>, n: int) -> bool {
    &&& 0 <= pos <= rows.len()
    &&& 0 <= n
    &&& n + (rows.len() - pos) <= nodes.len()
    &&& forall|k: int| pos <= k < rows.len() ==> nodes[n + (k - pos)] == #[trigger] rows[k]
}

/// The identifier passed last parts the stored artists: those before place `n` do not
/// lie above it, those from `n` on do.
pub open spec fn passed_ok(passed: Option<u128>, artists: Seq<ArtistRec>, n: int) -> bool {
    match passed {
        None => n == 0,
        Some(b) => {
            &&& forall|i: int| 0 <= i < n && i < artists.len() ==> (#[trigger] artists[i]).id <= b
            &&& forall|i: int| n <= i < artists.len() ==> (#[trigger] artists[i]).id > b
        },
    }
}

/// What holds of the songs of the album under work: which rows are to go and which songs
/// are to come was settled from the rows as they were read, and the stored songs are the
/// rows that have not been deleted yet.
pub open spec fn songs_inv(p: Progress, an: AlbumRec, da: DiskAlbum) -> bool {
    let nodes = keyed_songs(an);
    let gone = p.song_deletes.take(p.song_delete_pos);
    &&& p.song_deletes == stale(p.songs, song_paths(da))
    &&& p.song_adds == missing(da.songs, row_keys(p.songs))
    &&& forall|a: int, b: int| 0 <= a < b < p.songs.len() ==> p.songs[a].id != p.songs[b].id
    &&& 0 <= p.song_delete_pos <= p.song_deletes.len()
    &&& forall|x: int| 0 <= x < nodes.len() ==> p.songs.contains(#[trigger] nodes[x]) && !gone.contains(nodes[x].id)
    &&& forall|k: int|
        0 <= k < p.songs.len() && !gone.contains((#[trigger] p.songs[k]).id) ==> nodes.contains(
            p.songs[k],
        )
}

/// What holds of the albums of the artist under work. `cur` is 1 while an album is
/// under work, which then stands right behind the albums that are done with.
pub open spec fn albums_inv(p: Progress, node: ArtistRec, d: DiskArtist, cur: int) -> bool {
    let n = p.kept_albums as int;
    &&& level_ok(row_keys(keyed_albums(node)), album_names(d), p.album_seen, n + cur)
    &&& forall|y: int|
        0 <= y < n ==> album_mirrors(
            #[trigger] node.albums[y],
            d.albums[position(album_names(d), node.albums[y].name)->0],
        )
    &&& cur == 1 ==> node.albums[n].id == p.album_id && position(
        album_names(d),
        node.albums[n].name,
    ) == Some(p.album)
    &&& if p.listing {
        &&& rows_ahead(p.albums, p.album_pos, keyed_albums(node), n)
        &&& node.albums.len() == n + (p.albums.len() - p.album_pos)
    } else {
        &&& node.albums.len() == n + cur
        &&& adds_ok(p.new_albums, p.new_album_pos + cur, p.album_seen)
    }
}

/// What holds of the stored artists. `cur` is 1 while an artist is under work, which
/// then stands right behind the artists that are done with.
pub open spec fn artists_inv(p: Progress, c: Stored, t: Seq<DiskArtist>, cur: int) -> bool {
    let n = p.kept_artists as int;
    &&& level_ok(row_keys(keyed_artists(c.artists)), artist_names(t), p.artist_seen, n + cur)
    &&& forall|i: int|
        0 <= i < n ==> artist_mirrors(
            #[trigger] c.artists[i],
            t[position(artist_names(t), c.artists[i].name)->0],
        )
    &&& cur == 1 ==> c.artists[n].id == p.artist_id && position(
        artist_names(t),
        c.artists[n].name,
    ) == Some(p.artist)
    &&& if p.scanning {
        &&& rows_ahead(p.page, p.page_pos, keyed_artists(c.artists), n)
        &&& passed_ok(p.passed, c.artists, n)
        &&& p.more_pages ==> p.page.len() > 0
    } else {
        &&& c.artists.len() == n + cur
        &&& adds_ok(p.new_artists, p.new_artist_pos + cur, p.artist_seen)
    }
}

/// Whether the last page was read and `more_pages` says whether stored artists follow
/// its rows.
pub open spec fn page_known(p: Progress, c: Stored) -> bool {
    p.scanning ==> (p.more_pages <==> p.kept_artists + (p.page.len() - p.page_pos)
        < c.artists.len())
}

/// While an artist is under work, or an album of it.
pub open spec fn under_artist(a: Awaiting) -> bool {
    a is Albums || a is AlbumGone || a is Songs || a is SongGone || a is SongsAdded || a is AlbumAdded
}

/// While the albums of the artist under work are gone through or added.
pub open spec fn at_albums(a: Awaiting) -> bool {
    a is AlbumGone || a is Songs || a is SongGone || a is SongsAdded || a is AlbumAdded
}

/// While an album is under work.
pub open spec fn under_album(a: Awaiting) -> bool {
    a is Songs || a is SongGone || a is SongsAdded
}

/// While the songs of the album under work are deleted or added.
pub open spec fn at_songs(a: Awaiting) -> bool {
    a is SongGone || a is SongsAdded
}

/// 1 where the condition holds, else 0.
pub open spec fn one_if(b: bool) -> int {
    if b {
        1
    } else {
        0
    }
}

/// The request that the machine waits to be answered.
pub open spec fn pending(p: Progress, t: Seq<DiskArtist>) -> Request {
    match p.awaiting {
        Awaiting::Page => Request::ListArtists { after: p.passed },
        Awaiting::ArtistGone => Request::DeleteArtist { id: p.page[p.page_pos].id },
        Awaiting::Albums => Request::ListAlbums { artist_id: p.artist_id },
        Awaiting::AlbumGone => Request::DeleteAlbum { id: p.albums[p.album_pos].id },
        Awaiting::Songs => Request::ListSongs { album_id: p.album_id },
        Awaiting::SongGone => Request::DeleteSong { id: p.song_deletes[p.song_delete_pos] },
        Awaiting::SongsAdded => Request::AddSongs { album_id: p.album_id, songs: p.song_adds },
        Awaiting::AlbumAdded => Request::AddAlbum {
            artist_id: p.artist_id,
            name: t[p.artist].albums[p.album].name,
            year: t[p.artist].albums[p.album].year,
        },
        Awaiting::ArtistAdded => Request::AddArtist { name: t[p.artist].name },
        Awaiting::Nothing => if p.failed {
            Request::Abort
        } else {
            Request::Finish
        },
    }
}

/// Where the catalog mirrored the tree at the start, nothing has been written, and the
/// catalog is as it was.
pub open spec fn untouched(p: Progress, c: Stored, t: Seq<DiskArtist>, c0: Stored) -> bool {
    mirrors(c0.artists, t) ==> c == c0 && p.inserts == 0 && p.deletes == 0
}

/// What holds of the machine and the catalog between any two operations of a run that
/// began on the catalog `c0`.
pub open spec fn inv(p: Progress, c: Stored, t: Seq<DiskArtist>, c0: Stored) -> bool {
    &&& well_kept(c)
    &&& well_formed(t)
    &&& consistent(p, t)
    &&& !p.failed
    &&& untouched(p, c, t, c0)
    &&& if p.awaiting is Nothing {
        mirrors(c.artists, t) && !p.scanning && p.new_artist_pos == p.new_artists.len()
    } else {
        &&& artists_inv(p, c, t, one_if(under_artist(p.awaiting)))
        &&& !(p.awaiting is Page) ==> page_known(p, c)
        &&& p.awaiting is Page ==> p.page_pos == p.page.len()
        &&& at_albums(p.awaiting) ==> albums_inv(
            p,
            c.artists[p.kept_artists as int],
            t[p.artist],
            one_if(under_album(p.awaiting)),
        )
        &&& at_songs(p.awaiting) ==> songs_inv(
            p,
            c.artists[p.kept_artists as int].albums[p.kept_albums as int],
            t[p.artist].albums[p.album],
        )
        &&& p.awaiting is SongsAdded ==> p.song_delete_pos == p.song_deletes.len()
        &&& p.awaiting is ArtistGone || p.awaiting is AlbumGone || p.awaiting is SongGone
            ==> p.deletes != 0
        &&& p.awaiting is ArtistAdded || p.awaiting is AlbumAdded || p.awaiting is SongsAdded
            ==> p.inserts != 0
    }
}

/// How far the run is from its end: a row of numbers of which, from one operation to the
/// next, the first that changes falls.
pub open spec fn measure(p: Progress, c: Stored, t: Seq<DiskArtist>) -> (int, int, int, int, int) {
    (
        if p.scanning {
            (c.artists.len() - p.kept_artists) + t.len() + 1
        } else {
            p.new_artists.len() - p.new_artist_pos
        },
        match p.awaiting {
            Awaiting::Page => 2,
            Awaiting::ArtistGone => 1,
            Awaiting::Albums => 1,
            Awaiting::ArtistAdded => 1,
            _ => 0,
        },
        if p.listing {
            (p.albums.len() - p.album_pos) + t[p.artist].albums.len() + 1
        } else {
            p.new_albums.len() - p.new_album_pos
        },
        match p.awaiting {
            Awaiting::AlbumGone => 1,
            Awaiting::Songs => 1,
            Awaiting::AlbumAdded => 1,
            _ => 0,
        },
        if p.awaiting is SongGone {
            p.song_deletes.len() - p.song_delete_pos + 1
        } else {
            0
        },
    )
}

/// What every step of the run carries along.
pub open spec fn grounded(p: Progress, c: Stored, t: Seq<DiskArtist>, c0: Stored) -> bool {
    &&& well_kept(c)
    &&& well_formed(t)
    &&& !p.failed
    &&& untouched(p, c, t, c0)
}

/// One more is never none.
pub proof fn lemma_bump(n: u64)
    ensures
        crate::reconciler::bump(n) != 0,
{
}

/// Where the artists still to be added are gone on with, the machine and the catalog
/// are as they should be; the run ends only where the catalog mirrors the tree.
proof fn lemma_add_artists(p: Progress, c: Stored, t: Seq<DiskArtist>, c0: Stored)
    requires
        grounded(p, c, t, c0),
        artists_in_range(p, t),
        !p.scanning,
        artists_inv(p, c, t, 0),
    ensures
        ({
            let (q, req) = add_artists(p, t);
            &&& inv(q, c, t, c0)
            &&& req == pending(q, t)
            &&& measure(q, c, t).0 == measure(p, c, t).0
            &&& measure(q, c, t).0 > 0 ==> measure(q, c, t).1 == 1
        }),
{
    reveal(add_artists);
    let (q, req) = add_artists(p, t);
    let have = row_keys(keyed_artists(c.artists));
    let want = artist_names(t);
    if mirrors(c0.artists, t) {
        lemma_same_keys_end(have, want, p.artist_seen);
    }
    if 0 <= p.new_artist_pos < p.new_artists.len() {
        let j = p.new_artists[p.new_artist_pos];
        assert(!p.artist_seen[j]);
        lemma_bump(p.inserts);
        assert(artists_inv(q, c, t, 0));
    } else {
        lemma_adds_end(p.new_artists, p.artist_seen);
        lemma_level_done(have, want, p.artist_seen);
    }
}

/// Where the stored artists are gone on with at the cursor, the machine and the catalog
/// are as they should be.
proof fn lemma_resume_artists(p: Progress, c: Stored, t: Seq<DiskArtist>, c0: Stored)
    requires
        grounded(p, c, t, c0),
        artists_in_range(p, t),
        artists_inv(p, c, t, 0),
        page_known(p, c),
    ensures
        ({
            let (q, req) = resume_artists(p, t);
            &&& inv(q, c, t, c0)
            &&& req == pending(q, t)
            &&& measure(q, c, t).0 <= measure(p, c, t).0
            &&& measure(q, c, t).0 == measure(p, c, t).0 && measure(q, c, t).0 > 0 ==> {
                ||| measure(q, c, t).1 == 1
                ||| (p.scanning && p.page_pos == p.page.len() && p.more_pages)
            }
        }),
{
    reveal(resume_artists);
    let (q, req) = resume_artists(p, t);
    let have = row_keys(keyed_artists(c.artists));
    let want = artist_names(t);
    let n = p.kept_artists as int;
    if !p.scanning {
        lemma_add_artists(p, c, t, c0);
    } else if 0 <= p.page_pos < p.page.len() {
        let row = p.page[p.page_pos];
        assert(keyed_artists(c.artists)[n + (p.page_pos - p.page_pos)] == row);
        assert(have[n] == row.key);
        lemma_position(want, row.key);
        if mirrors(c0.artists, t) {
            lemma_same_keys_row(have, want, p.artist_seen, n);
        }
        match position(want, row.key) {
            Some(j) => {
                if !p.artist_seen[j] {
                    lemma_claim(have, want, p.artist_seen, n, j);
                    assert(artists_inv(q, c, t, 1));
                } else {
                    lemma_bump(p.deletes);
                    assert(artists_inv(q, c, t, 0));
                }
            },
            None => {
                lemma_bump(p.deletes);
                assert(artists_inv(q, c, t, 0));
            },
        }
    } else if p.more_pages {
        assert(artists_inv(q, c, t, 0));
    } else {
        let mid = Progress {
            scanning: false,
            new_artists: unseen(p.artist_seen),
            new_artist_pos: 0,
            ..p
        };
        crate::keys::lemma_unseen(p.artist_seen);
        lemma_adds_begin(p.artist_seen);
        assert(artists_inv(mid, c, t, 0));
        lemma_add_artists(mid, c, t, c0);
    }
}

/// Where the artist under work mirrors its artist on disk and is left, the machine and
/// the catalog are as they should be, and the run has come nearer to its end.
proof fn lemma_finish_artist(p: Progress, c: Stored, t: Seq<DiskArtist>, c0: Stored)
    requires
        grounded(p, c, t, c0),
        artist_in_range(p, t),
        artists_inv(p, c, t, 1),
        page_known(p, c),
        artist_mirrors(c.artists[p.kept_artists as int], t[p.artist]),
    ensures
        ({
            let (q, req) = finish_artist(p, t);
            &&& inv(q, c, t, c0)
            &&& req == pending(q, t)
            &&& measure(q, c, t).0 < measure(p, c, t).0
        }),
{
    reveal(finish_artist);
    let n = p.kept_artists as int;
    let mid = if p.scanning {
        Progress {
            page_pos: p.page_pos + 1,
            passed: Some(p.artist_id),
            kept_artists: p.kept_artists + 1,
            rows_passed: p.rows_passed + 1,
            ..p
        }
    } else {
        Progress { new_artist_pos: p.new_artist_pos + 1, kept_artists: p.kept_artists + 1, ..p }
    };
    assert forall|i: int| 0 <= i < n + 1 implies artist_mirrors(
        #[trigger] c.artists[i],
        t[position(artist_names(t), c.artists[i].name)->0],
    ) by {}
    if p.scanning {
        assert(rows_ahead(mid.page, mid.page_pos, keyed_artists(c.artists), n + 1)) by {
            assert forall|k: int| mid.page_pos <= k < mid.page.len() implies keyed_artists(
                c.artists,
            )[n + 1 + (k - mid.page_pos)] == #[trigger] mid.page[k] by {
                assert(keyed_artists(c.artists)[n + (k - p.page_pos)] == p.page[k]);
            }
        }
        assert(passed_ok(mid.passed, c.artists, n + 1));
    }
    assert(artists_inv(mid, c, t, 0));
    lemma_resume_artists(mid, c, t, c0);
}

/// What holds of the artists while one of them is under work.
pub open spec fn artist_context(p: Progress, c: Stored, t: Seq<DiskArtist>) -> bool {
    &&& artists_inv(p, c, t, 1)
    &&& page_known(p, c)
}

/// Where the albums still to be added under the artist under work are gone on with, the
/// machine and the catalog are as they should be.
proof fn lemma_add_albums(p: Progress, c: Stored, t: Seq<DiskArtist>, c0: Stored)
    requires
        grounded(p, c, t, c0),
        albums_in_range(p, t),
        !p.listing,
        artist_context(p, c, t),
        albums_inv(p, c.artists[p.kept_artists as int], t[p.artist], 0),
    ensures
        ({
            let (q, req) = add_albums(p, t);
            &&& inv(q, c, t, c0)
            &&& req == pending(q, t)
            &&& measure(q, c, t).0 <= measure(p, c, t).0
            &&& measure(q, c, t).0 == measure(p, c, t).0 ==> {
                &&& measure(q, c, t).1 == 0
                &&& measure(q, c, t).2 == measure(p, c, t).2
                &&& measure(q, c, t).3 == 1
            }
        }),
{
    reveal(add_albums);
    let (q, req) = add_albums(p, t);
    let node = c.artists[p.kept_artists as int];
    let d = t[p.artist];
    let have = row_keys(keyed_albums(node));
    let want = album_names(d);
    lemma_position(artist_names(t), node.name);
    if 0 <= p.new_album_pos < p.new_albums.len() {
        let l = p.new_albums[p.new_album_pos];
        assert(!p.album_seen[l]);
        lemma_bump(p.inserts);
        if mirrors(c0.artists, t) {
            assert(artist_mirrors(node, t[position(artist_names(t), node.name)->0]));
            lemma_same_keys_end(have, want, p.album_seen);
        }
        assert(artists_inv(q, c, t, 1));
        assert(albums_inv(q, node, d, 0));
    } else {
        lemma_adds_end(p.new_albums, p.album_seen);
        lemma_level_done(have, want, p.album_seen);
        assert(artist_mirrors(node, d));
        lemma_finish_artist(p, c, t, c0);
    }
}

/// Where the stored albums of the artist under work are gone on with at the cursor, the
/// machine and the catalog are as they should be.
proof fn lemma_resume_albums(p: Progress, c: Stored, t: Seq<DiskArtist>, c0: Stored)
    requires
        grounded(p, c, t, c0),
        albums_in_range(p, t),
        artist_context(p, c, t),
        albums_inv(p, c.artists[p.kept_artists as int], t[p.artist], 0),
    ensures
        ({
            let (q, req) = resume_albums(p, t);
            &&& inv(q, c, t, c0)
            &&& req == pending(q, t)
            &&& measure(q, c, t).0 <= measure(p, c, t).0
            &&& measure(q, c, t).0 == measure(p, c, t).0 ==> {
                &&& measure(q, c, t).1 == 0
                &&& measure(q, c, t).2 <= measure(p, c, t).2
                &&& measure(q, c, t).3 == 1
            }
        }),
{
    reveal(resume_albums);
    let (q, req) = resume_albums(p, t);
    let node = c.artists[p.kept_artists as int];
    let d = t[p.artist];
    let have = row_keys(keyed_albums(node));
    let want = album_names(d);
    let n = p.kept_albums as int;
    lemma_position(artist_names(t), node.name);
    if !p.listing {
        lemma_add_albums(p, c, t, c0);
    } else if 0 <= p.album_pos < p.albums.len() {
        let row = p.albums[p.album_pos];
        assert(keyed_albums(node)[n + (p.album_pos - p.album_pos)] == row);
        assert(have[n] == row.key);
        lemma_position(want, row.key);
        if mirrors(c0.artists, t) {
            assert(artist_mirrors(node, t[position(artist_names(t), node.name)->0]));
            lemma_same_keys_row(have, want, p.album_seen, n);
        }
        assert(artists_inv(q, c, t, 1));
        match position(want, row.key) {
            Some(l) => {
                if !p.album_seen[l] {
                    lemma_claim(have, want, p.album_seen, n, l);
                    assert(albums_inv(q, node, d, 1));
                } else {
                    lemma_bump(p.deletes);
                    assert(albums_inv(q, node, d, 0));
                }
            },
            None => {
                lemma_bump(p.deletes);
                assert(albums_inv(q, node, d, 0));
            },
        }
    } else {
        let mid = Progress {
            listing: false,
            new_albums: unseen(p.album_seen),
            new_album_pos: 0,
            ..p
        };
        crate::keys::lemma_unseen(p.album_seen);
        lemma_adds_begin(p.album_seen);
        assert(artists_inv(mid, c, t, 1));
        assert(albums_inv(mid, node, d, 0));
        lemma_add_albums(mid, c, t, c0);
    }
}

/// Where the album under work mirrors its album on disk and is left, the machine and
/// the catalog are as they should be, and the run has come nearer to its end.
proof fn lemma_finish_album(p: Progress, c: Stored, t: Seq<DiskArtist>, c0: Stored)
    requires
        grounded(p, c, t, c0),
        album_in_range(p, t),
        artist_context(p, c, t),
        albums_inv(p, c.artists[p.kept_artists as int], t[p.artist], 1),
        album_mirrors(
            c.artists[p.kept_artists as int].albums[p.kept_albums as int],
            t[p.artist].albums[p.album],
        ),
    ensures
        ({
            let (q, req) = finish_album(p, t);
            &&& inv(q, c, t, c0)
            &&& req == pending(q, t)
            &&& measure(q, c, t).0 <= measure(p, c, t).0
            &&& measure(q, c, t).0 == measure(p, c, t).0 ==> {
                &&& measure(q, c, t).1 == 0
                &&& measure(q, c, t).2 < measure(p, c, t).2
            }
        }),
{
    reveal(finish_album);
    let node = c.artists[p.kept_artists as int];
    let d = t[p.artist];
    let n = p.kept_albums as int;
    let mid = if p.listing {
        Progress { album_pos: p.album_pos + 1, kept_albums: p.kept_albums + 1, ..p }
    } else {
        Progress { new_album_pos: p.new_album_pos + 1, kept_albums: p.kept_albums + 1, ..p }
    };
    assert forall|y: int| 0 <= y < n + 1 implies album_mirrors(
        #[trigger] node.albums[y],
        d.albums[position(album_names(d), node.albums[y].name)->0],
    ) by {}
    if p.listing {
        assert(rows_ahead(mid.albums, mid.album_pos, keyed_albums(node), n + 1)) by {
            assert forall|k: int| mid.album_pos <= k < mid.albums.len() implies keyed_albums(
                node,
            )[n + 1 + (k - mid.album_pos)] == #[trigger] mid.albums[k] by {
                assert(keyed_albums(node)[n + (k - p.album_pos)] == p.albums[k]);
            }
        }
    }
    assert(artists_inv(mid, c, t, 1));
    assert(albums_inv(mid, node, d, 0));
    lemma_resume_albums(mid, c, t, c0);
}

/// No two songs of the album share an identifier.
pub open spec fn own_ids(an: AlbumRec) -> bool {
    forall|a: int, b: int| 0 <= a < b < an.songs.len() ==> an.songs[a].id != an.songs[b].id
}

/// Whether `node` is a row that keeps its place.
pub open spec fn kept_row(rows: Seq<RowKey>, disk: Seq<Key>, node: RowKey) -> bool {
    exists|k: int| 0 <= k < rows.len() && #[trigger] rows[k] == node && keeps(disk, row_keys(rows), k)
}

/// Once every row that was to go is deleted, the album with the songs to add behind its
/// own mirrors the album on disk.
pub proof fn lemma_album_done(p: Progress, an: AlbumRec, da: DiskAlbum, rec: AlbumRec)
    requires
        songs_inv(p, an, da),
        p.song_delete_pos == p.song_deletes.len(),
        distinct(song_paths(da)),
        own_ids(an),
        rec.name == da.name,
        rec.songs.len() == an.songs.len() + p.song_adds.len(),
        forall|x: int| 0 <= x < an.songs.len() ==> rec.songs[x] == an.songs[x],
        forall|y: int|
            0 <= y < p.song_adds.len() ==> (#[trigger] rec.songs[an.songs.len() + y]).song
                == p.song_adds[y],
    ensures
        album_mirrors(rec, da),
{
    let rows = p.songs;
    let keys = row_keys(rows);
    let disk = song_paths(da);
    let nodes = keyed_songs(an);
    let have = row_keys(keyed_songs(rec));
    let old_len = an.songs.len() as int;
    let adds = p.song_adds;
    assert(p.song_deletes.take(p.song_delete_pos) =~= p.song_deletes);
    crate::plan::lemma_stale_upto(rows, disk, rows.len() as int);
    crate::plan::lemma_missing_upto(da.songs, keys, da.songs.len() as int);
    assert forall|a: int, b: int| 0 <= a < b < da.songs.len() implies da.songs[a].path
        != da.songs[b].path by {
        assert(disk[a] != disk[b]);
    }
    // Every song the album had is a row that keeps its place.
    assert forall|x: int| 0 <= x < old_len implies kept_row(rows, disk, #[trigger] nodes[x]) by {
        assert(rows.contains(nodes[x]));
        let k = choose|k: int| 0 <= k < rows.len() && rows[k] == nodes[x];
        if !keeps(disk, keys, k) {
            assert(p.song_deletes.contains(rows[k].id));
        }
    }
    // Every song that was added is on disk, and no row has its path.
    assert forall|y: int| 0 <= y < adds.len() implies crate::plan::lacks_row(
        da.songs,
        keys,
        da.songs.len() as int,
        #[trigger] adds[y],
    ) by {}
    assert forall|k: int| 0 <= k < have.len() implies position(disk, #[trigger] have[k]) is Some by {
        lemma_position(disk, have[k]);
        if k < old_len {
            assert(kept_row(rows, disk, nodes[k]));
            let r = choose|r: int| 0 <= r < rows.len() && #[trigger] rows[r] == nodes[k] && keeps(disk, keys, r);
            assert(keys[r] == have[k]);
        } else {
            let y = k - old_len;
            assert(rec.songs[old_len + y].song == adds[y]);
            assert(crate::plan::lacks_row(da.songs, keys, da.songs.len() as int, adds[y]));
            let s = choose|s: int|
                0 <= s < da.songs.len() && position(keys, da.songs[s].path) is None
                    && (#[trigger] da.songs[s]) == adds[y];
            assert(disk[s] == have[k]);
        }
    }
    assert forall|s: int| 0 <= s < disk.len() implies position(have, #[trigger] disk[s]) is Some by {
        lemma_position(have, disk[s]);
        lemma_position(keys, disk[s]);
        match position(keys, disk[s]) {
            Some(k0) => {
                lemma_position(disk, keys[k0]);
                assert(keeps(disk, keys, k0));
                assert(!p.song_deletes.contains(rows[k0].id));
                assert(nodes.contains(rows[k0]));
                let x = choose|x: int| 0 <= x < nodes.len() && nodes[x] == rows[k0];
                assert(have[x] == disk[s]);
            },
            None => {
                assert(adds.contains(da.songs[s]));
                let y = choose|y: int| 0 <= y < adds.len() && adds[y] == da.songs[s];
                assert(rec.songs[old_len + y].song == adds[y]);
                assert(have[old_len + y] == disk[s]);
            },
        }
    }
    assert forall|a: int, b: int| 0 <= a < b < have.len() implies have[a] != have[b] by {
        if b < old_len {
            assert(kept_row(rows, disk, nodes[a]));
            assert(kept_row(rows, disk, nodes[b]));
            let ka = choose|r: int| 0 <= r < rows.len() && #[trigger] rows[r] == nodes[a] && keeps(disk, keys, r);
            let kb = choose|r: int| 0 <= r < rows.len() && #[trigger] rows[r] == nodes[b] && keeps(disk, keys, r);
            assert(an.songs[a].id != an.songs[b].id);
            assert(keys[ka] == have[a] && keys[kb] == have[b]);
        } else if a < old_len {
            assert(kept_row(rows, disk, nodes[a]));
            let ka = choose|r: int| 0 <= r < rows.len() && #[trigger] rows[r] == nodes[a] && keeps(disk, keys, r);
            let y = b - old_len;
            assert(rec.songs[old_len + y].song == adds[y]);
            assert(crate::plan::lacks_row(da.songs, keys, da.songs.len() as int, adds[y]));
            let s = choose|s: int|
                0 <= s < da.songs.len() && position(keys, da.songs[s].path) is None
                    && (#[trigger] da.songs[s]) == adds[y];
            lemma_position(keys, have[b]);
            assert(keys[ka] == have[a]);
        } else {
            let x = a - old_len;
            let y = b - old_len;
            assert(rec.songs[old_len + x].song == adds[x]);
            assert(rec.songs[old_len + y].song == adds[y]);
            assert(adds[x].path != adds[y].path);
        }
    }
}

/// Where the album mirrors the album on disk already, no row is left to delete and no
/// song is to be added.
proof fn lemma_album_mirrored(p: Progress, an: AlbumRec, da: DiskAlbum)
    requires
        songs_inv(p, an, da),
        album_mirrors(an, da),
        own_ids(an),
    ensures
        p.song_delete_pos == p.song_deletes.len(),
        p.song_adds.len() == 0,
{
    let rows = p.songs;
    let keys = row_keys(rows);
    let disk = song_paths(da);
    let nodes = keyed_songs(an);
    let have = row_keys(nodes);
    let gone = p.song_deletes.take(p.song_delete_pos);
    crate::plan::lemma_stale_upto(rows, disk, rows.len() as int);
    crate::plan::lemma_missing_upto(da.songs, keys, da.songs.len() as int);
    if p.song_delete_pos < p.song_deletes.len() {
        let id = p.song_deletes[p.song_delete_pos];
        assert(crate::plan::loses_place(rows, disk, rows.len() as int, id));
        let k = choose|k: int| 0 <= k < rows.len() && !keeps(disk, keys, k) && (#[trigger] rows[k]).id == id;
        if gone.contains(id) {
            let y = choose|y: int| 0 <= y < gone.len() && gone[y] == id;
            assert(p.song_deletes[y] == p.song_deletes[p.song_delete_pos]);
        }
        assert(nodes.contains(rows[k]));
        let x = choose|x: int| 0 <= x < nodes.len() && nodes[x] == rows[k];
        assert(have[x] == keys[k]);
        assert(position(disk, have[x]) is Some);
        lemma_position(keys, keys[k]);
        let first = position(keys, keys[k])->0;
        assert(keys[first] == keys[k]);
        assert(keeps(disk, keys, first));
        assert(!p.song_deletes.contains(rows[first].id));
        if gone.contains(rows[first].id) {
            let y = choose|y: int| 0 <= y < gone.len() && gone[y] == rows[first].id;
            assert(p.song_deletes[y] == rows[first].id);
        }
        assert(nodes.contains(rows[first]));
        let w = choose|w: int| 0 <= w < nodes.len() && nodes[w] == rows[first];
        assert(have[w] == have[x]);
        assert(false);
    }
    if p.song_adds.len() > 0 {
        let song = p.song_adds[0];
        assert(crate::plan::lacks_row(da.songs, keys, da.songs.len() as int, song));
        let s = choose|s: int|
            0 <= s < da.songs.len() && position(keys, da.songs[s].path) is None && (#[trigger] da.songs[s])
                == song;
        assert(disk[s] == song.path);
        lemma_position(have, disk[s]);
        let x = position(have, disk[s])->0;
        assert(rows.contains(nodes[x]));
        let k = choose|k: int| 0 <= k < rows.len() && rows[k] == nodes[x];
        assert(keys[k] == disk[s]);
        lemma_position(keys, disk[s]);
        assert(false);
    }
}

/// What holds of the albums while one of them is under work.
pub open spec fn album_context(p: Progress, c: Stored, t: Seq<DiskArtist>) -> bool {
    &&& artist_context(p, c, t)
    &&& albums_inv(p, c.artists[p.kept_artists as int], t[p.artist], 1)
}

/// The album under work is stored at its place, under the name of its album on disk, and
/// no two of its songs share an identifier.
pub proof fn lemma_album_at_hand(p: Progress, c: Stored, t: Seq<DiskArtist>)
    requires
        well_kept(c),
        well_formed(t),
        album_in_range(p, t),
        album_context(p, c, t),
    ensures
        album_place(c.artists, p.kept_artists as int, p.kept_albums as int),
        c.artists[p.kept_artists as int].name == t[p.artist].name,
        c.artists[p.kept_artists as int].albums[p.kept_albums as int].name
            == t[p.artist].albums[p.album].name,
        own_ids(c.artists[p.kept_artists as int].albums[p.kept_albums as int]),
        distinct(song_paths(t[p.artist].albums[p.album])),
        mirrors(c.artists, t) ==> album_mirrors(
            c.artists[p.kept_artists as int].albums[p.kept_albums as int],
            t[p.artist].albums[p.album],
        ),
{
    let i = p.kept_artists as int;
    let j = p.kept_albums as int;
    let node = c.artists[i];
    let d = t[p.artist];
    lemma_position(artist_names(t), node.name);
    lemma_position(album_names(d), node.albums[j].name);
    assert(crate::tree::artist_well_formed(d));
    assert(crate::tree::album_well_formed(d.albums[p.album]));
    assert forall|a: int, b: int| 0 <= a < b < node.albums[j].songs.len() implies node.albums[j].songs[a].id
        != node.albums[j].songs[b].id by {
        assert(song_place(c.artists, i, j, a) && song_place(c.artists, i, j, b));
    }
    if mirrors(c.artists, t) {
        assert(artist_mirrors(node, t[position(artist_names(t), node.name)->0]));
    }
}

/// Where the songs of the album under work are gone on with, the machine and the catalog
/// are as they should be.
proof fn lemma_resume_songs(p: Progress, c: Stored, t: Seq<DiskArtist>, c0: Stored)
    requires
        grounded(p, c, t, c0),
        album_in_range(p, t),
        album_context(p, c, t),
        songs_inv(
            p,
            c.artists[p.kept_artists as int].albums[p.kept_albums as int],
            t[p.artist].albums[p.album],
        ),
    ensures
        ({
            let (q, req) = resume_songs(p, t);
            &&& inv(q, c, t, c0)
            &&& req == pending(q, t)
            &&& measure(q, c, t).0 <= measure(p, c, t).0
            &&& measure(q, c, t).0 == measure(p, c, t).0 ==> {
                &&& measure(q, c, t).1 == 0
                &&& measure(q, c, t).2 <= measure(p, c, t).2
                &&& measure(q, c, t).2 == measure(p, c, t).2 ==> {
                    &&& measure(q, c, t).3 == 0
                    &&& 0 <= measure(q, c, t).4 <= p.song_deletes.len() - p.song_delete_pos + 1
                    &&& p.song_delete_pos == p.song_deletes.len() ==> measure(q, c, t).4 == 0
                }
            }
        }),
{
    reveal(resume_songs);
    let (q, req) = resume_songs(p, t);
    let node = c.artists[p.kept_artists as int];
    let an = node.albums[p.kept_albums as int];
    let d = t[p.artist];
    let da = d.albums[p.album];
    lemma_album_at_hand(p, c, t);
    if mirrors(c0.artists, t) {
        lemma_album_mirrored(p, an, da);
    }
    if 0 <= p.song_delete_pos < p.song_deletes.len() {
        lemma_bump(p.deletes);
        assert(artists_inv(q, c, t, 1));
        assert(albums_inv(q, node, d, 1));
        assert(songs_inv(q, an, da));
    } else if p.song_adds.len() > 0 {
        lemma_bump(p.inserts);
        assert(artists_inv(q, c, t, 1));
        assert(albums_inv(q, node, d, 1));
        assert(songs_inv(q, an, da));
    } else {
        lemma_album_done(p, an, da, an);
        lemma_finish_album(p, c, t, c0);
    }
}

/// A change inside the artist under work leaves what holds of the artists as it was.
proof fn lemma_artist_frame(p: Progress, c: Stored, c2: Stored, t: Seq<DiskArtist>)
    requires
        artist_context(p, c, t),
        c2.artists.len() == c.artists.len(),
        forall|i: int|
            0 <= i < c.artists.len() && i != p.kept_artists ==> c2.artists[i] == c.artists[i],
        c2.artists[p.kept_artists as int].id == c.artists[p.kept_artists as int].id,
        c2.artists[p.kept_artists as int].name == c.artists[p.kept_artists as int].name,
    ensures
        artist_context(p, c2, t),
        measure(p, c2, t) == measure(p, c, t),
{
    assert(keyed_artists(c2.artists) =~= keyed_artists(c.artists));
}

/// A change inside the album under work leaves what holds of the albums as it was.
proof fn lemma_album_frame(p: Progress, node: ArtistRec, node2: ArtistRec, d: DiskArtist)
    requires
        albums_inv(p, node, d, 1),
        node2.albums.len() == node.albums.len(),
        forall|y: int|
            0 <= y < node.albums.len() && y != p.kept_albums ==> node2.albums[y] == node.albums[y],
        node2.albums[p.kept_albums as int].id == node.albums[p.kept_albums as int].id,
        node2.albums[p.kept_albums as int].name == node.albums[p.kept_albums as int].name,
    ensures
        albums_inv(p, node2, d, 1),
{
    assert(keyed_albums(node2) =~= keyed_albums(node));
}

/// What holds when the stored artists are about to be gone on with at the cursor.
pub open spec fn ready_artists(p: Progress, c: Stored, t: Seq<DiskArtist>, c0: Stored) -> bool {
    &&& grounded(p, c, t, c0)
    &&& artists_in_range(p, t)
    &&& artists_inv(p, c, t, 0)
    &&& page_known(p, c)
}

/// What holds when the albums of the artist under work are about to be gone on with.
pub open spec fn ready_albums(p: Progress, c: Stored, t: Seq<DiskArtist>, c0: Stored) -> bool {
    &&& grounded(p, c, t, c0)
    &&& albums_in_range(p, t)
    &&& artist_context(p, c, t)
    &&& albums_inv(p, c.artists[p.kept_artists as int], t[p.artist], 0)
}

/// What holds when the songs of the album under work are about to be gone on with.
pub open spec fn ready_songs(p: Progress, c: Stored, t: Seq<DiskArtist>, c0: Stored) -> bool {
    &&& grounded(p, c, t, c0)
    &&& album_in_range(p, t)
    &&& album_context(p, c, t)
    &&& songs_inv(
        p,
        c.artists[p.kept_artists as int].albums[p.kept_albums as int],
        t[p.artist].albums[p.album],
    )
}

/// What holds when the album under work is about to be left.
pub open spec fn ready_to_leave_album(
    p: Progress,
    c: Stored,
    t: Seq<DiskArtist>,
    c0: Stored,
) -> bool {
    &&& grounded(p, c, t, c0)
    &&& album_in_range(p, t)
    &&& album_context(p, c, t)
    &&& album_mirrors(
        c.artists[p.kept_artists as int].albums[p.kept_albums as int],
        t[p.artist].albums[p.album],
    )
}

/// Whether the first row of numbers is nearer to the end than the second: the first
/// number in which they differ is smaller, and not below nothing.
pub open spec fn nearer(a: (int, int, int, int, int), b: (int, int, int, int, int)) -> bool {
    if a.0 != b.0 {
        0 <= a.0 < b.0
    } else if a.1 != b.1 {
        0 <= a.1 < b.1
    } else if a.2 != b.2 {
        0 <= a.2 < b.2
    } else if a.3 != b.3 {
        0 <= a.3 < b.3
    } else {
        0 <= a.4 < b.4
    }
}

/// No number of the measure that counts is below nothing.
proof fn lemma_measure(p: Progress, c: Stored, t: Seq<DiskArtist>, c0: Stored)
    requires
        inv(p, c, t, c0),
    ensures
        measure(p, c, t).0 >= 0,
        !(p.awaiting is Nothing) ==> measure(p, c, t).0 > 0,
        measure(p, c, t).1 >= 0,
        at_albums(p.awaiting) ==> measure(p, c, t).2 > 0,
        measure(p, c, t).3 >= 0,
        measure(p, c, t).4 >= 0,
{
}

/// With a page of artist rows taken in, the artists can be gone on with.
pub proof fn lemma_ready_page(
    p: Progress,
    c: Stored,
    t: Seq<DiskArtist>,
    c0: Stored,
    rows: Seq<RowKey>,
    has_more: bool,
)
    requires
        inv(p, c, t, c0),
        p.awaiting is Page,
        answers(c, pending(p, t), c, Reply::Artists { rows, has_more }),
    ensures
        ready_artists(crate::reconciler::after_page(p, rows, has_more), c, t, c0),
{
    reveal(crate::reconciler::on_page);
    let n = p.kept_artists as int;
    let mid = Progress { page: rows, page_pos: 0, more_pages: has_more, ..p };
    crate::queries::lemma_page_start(c.artists, p.passed, n);
    assert(rows_ahead(rows, 0, keyed_artists(c.artists), n));
    assert(artists_inv(mid, c, t, 0));
}

/// What follows a page of artist rows.
proof fn lemma_on_page(
    p: Progress,
    c: Stored,
    t: Seq<DiskArtist>,
    c0: Stored,
    rows: Seq<RowKey>,
    has_more: bool,
)
    requires
        inv(p, c, t, c0),
        p.awaiting is Page,
        answers(c, pending(p, t), c, Reply::Artists { rows, has_more }),
    ensures
        ({
            let (q, req) = crate::reconciler::on_page(p, t, rows, has_more);
            &&& inv(q, c, t, c0)
            &&& req == pending(q, t)
            &&& nearer(measure(q, c, t), measure(p, c, t))
        }),
{
    reveal(crate::reconciler::on_page);
    lemma_ready_page(p, c, t, c0, rows, has_more);
    lemma_resume_artists(crate::reconciler::after_page(p, rows, has_more), c, t, c0);
    let (q, req) = resume_artists(crate::reconciler::after_page(p, rows, has_more), t);
    lemma_measure(q, c, t, c0);
}

/// With the artist row under the cursor deleted, the artists can be gone on with.
pub proof fn lemma_ready_artist_gone(p: Progress, c: Stored, t: Seq<DiskArtist>, c0: Stored, c2: Stored)
    requires
        inv(p, c, t, c0),
        p.awaiting is ArtistGone,
        answers(c, pending(p, t), c2, Reply::Done),
        well_kept(c2),
    ensures
        ready_artists(crate::reconciler::after_artist_gone(p), c2, t, c0),
        c2 == crate::queries::without_artist(c, p.kept_artists as int),
{
    reveal(crate::reconciler::on_artist_gone);
    let n = p.kept_artists as int;
    let row = p.page[p.page_pos];
    let mid = Progress {
        page_pos: p.page_pos + 1,
        passed: Some(row.id),
        rows_passed: p.rows_passed + 1,
        ..p
    };
    assert(keyed_artists(c.artists)[n + (p.page_pos - p.page_pos)] == row);
    assert(c.artists[n].id == row.id);
    assert(c2 == crate::queries::without_artist(c, n));
    let have = row_keys(keyed_artists(c.artists));
    lemma_drop(have, artist_names(t), p.artist_seen, n, n);
    assert(row_keys(keyed_artists(c2.artists)) =~= have.remove(n));
    assert(rows_ahead(mid.page, mid.page_pos, keyed_artists(c2.artists), n)) by {
        assert forall|k: int| mid.page_pos <= k < mid.page.len() implies keyed_artists(
            c2.artists,
        )[n + (k - mid.page_pos)] == #[trigger] mid.page[k] by {
            assert(keyed_artists(c.artists)[n + (k - p.page_pos)] == p.page[k]);
        }
    }
    assert(passed_ok(mid.passed, c2.artists, n)) by {
        assert forall|i: int| 0 <= i < n && i < c2.artists.len() implies (#[trigger] c2.artists[i]).id
            <= row.id by {
            assert(c2.artists[i] == c.artists[i]);
        }
        assert forall|i: int| n <= i < c2.artists.len() implies (#[trigger] c2.artists[i]).id
            > row.id by {
            assert(c2.artists[i] == c.artists[i + 1]);
        }
    }
    assert forall|i: int| 0 <= i < n implies artist_mirrors(
        #[trigger] c2.artists[i],
        t[position(artist_names(t), c2.artists[i].name)->0],
    ) by {
        assert(c2.artists[i] == c.artists[i]);
    }
    assert(artists_inv(mid, c2, t, 0));
}

/// What follows the deletion of the artist row under the cursor.
proof fn lemma_on_artist_gone(p: Progress, c: Stored, t: Seq<DiskArtist>, c0: Stored, c2: Stored)
    requires
        inv(p, c, t, c0),
        p.awaiting is ArtistGone,
        answers(c, pending(p, t), c2, Reply::Done),
        well_kept(c2),
    ensures
        ({
            let (q, req) = crate::reconciler::on_artist_gone(p, t);
            &&& inv(q, c2, t, c0)
            &&& req == pending(q, t)
            &&& nearer(measure(q, c2, t), measure(p, c, t))
        }),
{
    reveal(crate::reconciler::on_artist_gone);
    lemma_ready_artist_gone(p, c, t, c0, c2);
    lemma_resume_artists(crate::reconciler::after_artist_gone(p), c2, t, c0);
    let (q, req) = resume_artists(crate::reconciler::after_artist_gone(p), t);
    lemma_measure(q, c2, t, c0);
}

/// With the album rows of the artist under work taken in, its albums can be gone on with.
pub proof fn lemma_ready_albums(p: Progress, c: Stored, t: Seq<DiskArtist>, c0: Stored, rows: Seq<RowKey>)
    requires
        inv(p, c, t, c0),
        p.awaiting is Albums,
        answers(c, pending(p, t), c, Reply::Albums { rows }),
    ensures
        ready_albums(crate::reconciler::after_albums(p, t, rows), c, t, c0),
        rows == keyed_albums(c.artists[p.kept_artists as int]),
{
    reveal(crate::reconciler::on_albums);
    let n = p.kept_artists as int;
    let node = c.artists[n];
    let d = t[p.artist];
    let mid = Progress {
        album_seen: Seq::new(d.albums.len(), |l: int| false),
        albums: rows,
        album_pos: 0,
        listing: true,
        new_albums: Seq::empty(),
        new_album_pos: 0,
        kept_albums: 0,
        ..p
    };
    assert(rows == keyed_albums(node));
    assert(crate::tree::artist_well_formed(d));
    let have = row_keys(keyed_albums(node));
    assert(have.take(0) =~= Seq::<Key>::empty());
    assert(level_ok(have, album_names(d), mid.album_seen, 0));
    assert(artists_inv(mid, c, t, 1));
    assert(albums_inv(mid, node, d, 0));
}

/// What follows the album rows of the artist under work.
proof fn lemma_on_albums(p: Progress, c: Stored, t: Seq<DiskArtist>, c0: Stored, rows: Seq<RowKey>)
    requires
        inv(p, c, t, c0),
        p.awaiting is Albums,
        answers(c, pending(p, t), c, Reply::Albums { rows }),
    ensures
        ({
            let (q, req) = crate::reconciler::on_albums(p, t, rows);
            &&& inv(q, c, t, c0)
            &&& req == pending(q, t)
            &&& nearer(measure(q, c, t), measure(p, c, t))
        }),
{
    reveal(crate::reconciler::on_albums);
    lemma_ready_albums(p, c, t, c0, rows);
    lemma_resume_albums(crate::reconciler::after_albums(p, t, rows), c, t, c0);
    let (q, req) = resume_albums(crate::reconciler::after_albums(p, t, rows), t);
    lemma_measure(q, c, t, c0);
}

/// With the album row under the cursor deleted, the albums can be gone on with.
pub proof fn lemma_ready_album_gone(p: Progress, c: Stored, t: Seq<DiskArtist>, c0: Stored, c2: Stored)
    requires
        inv(p, c, t, c0),
        p.awaiting is AlbumGone,
        answers(c, pending(p, t), c2, Reply::Done),
        well_kept(c2),
    ensures
        ready_albums(crate::reconciler::after_album_gone(p), c2, t, c0),
        c2 == crate::queries::without_album(c, p.kept_artists as int, p.kept_albums as int),
{
    reveal(crate::reconciler::on_album_gone);
    let i = p.kept_artists as int;
    let n = p.kept_albums as int;
    let node = c.artists[i];
    let d = t[p.artist];
    let row = p.albums[p.album_pos];
    let mid = Progress { album_pos: p.album_pos + 1, ..p };
    assert(keyed_albums(node)[n + (p.album_pos - p.album_pos)] == row);
    assert(node.albums[n].id == row.id);
    assert(album_place(c.artists, i, n));
    assert(c2 == crate::queries::without_album(c, i, n));
    let node2 = c2.artists[i];
    lemma_artist_frame(p, c, c2, t);
    assert(artists_inv(mid, c2, t, 1));
    let have = row_keys(keyed_albums(node));
    lemma_drop(have, album_names(d), p.album_seen, n, n);
    assert(row_keys(keyed_albums(node2)) =~= have.remove(n));
    assert(rows_ahead(mid.albums, mid.album_pos, keyed_albums(node2), n)) by {
        assert forall|k: int| mid.album_pos <= k < mid.albums.len() implies keyed_albums(
            node2,
        )[n + (k - mid.album_pos)] == #[trigger] mid.albums[k] by {
            assert(keyed_albums(node)[n + (k - p.album_pos)] == p.albums[k]);
        }
    }
    assert forall|y: int| 0 <= y < n implies album_mirrors(
        #[trigger] node2.albums[y],
        d.albums[position(album_names(d), node2.albums[y].name)->0],
    ) by {
        assert(node2.albums[y] == node.albums[y]);
    }
    assert(albums_inv(mid, node2, d, 0));
}

/// What follows the deletion of the album row under the cursor.
proof fn lemma_on_album_gone(p: Progress, c: Stored, t: Seq<DiskArtist>, c0: Stored, c2: Stored)
    requires
        inv(p, c, t, c0),
        p.awaiting is AlbumGone,
        answers(c, pending(p, t), c2, Reply::Done),
        well_kept(c2),
    ensures
        ({
            let (q, req) = crate::reconciler::on_album_gone(p, t);
            &&& inv(q, c2, t, c0)
            &&& req == pending(q, t)
            &&& nearer(measure(q, c2, t), measure(p, c, t))
        }),
{
    reveal(crate::reconciler::on_album_gone);
    lemma_ready_album_gone(p, c, t, c0, c2);
    lemma_resume_albums(crate::reconciler::after_album_gone(p), c2, t, c0);
    let (q, req) = resume_albums(crate::reconciler::after_album_gone(p), t);
    lemma_measure(q, c2, t, c0);
}

/// With the song rows of the album under work taken in, its songs can be gone on with.
pub proof fn lemma_ready_songs(p: Progress, c: Stored, t: Seq<DiskArtist>, c0: Stored, rows: Seq<RowKey>)
    requires
        inv(p, c, t, c0),
        p.awaiting is Songs,
        answers(c, pending(p, t), c, Reply::Songs { rows }),
    ensures
        ready_songs(crate::reconciler::after_songs(p, t, rows), c, t, c0),
        rows == keyed_songs(c.artists[p.kept_artists as int].albums[p.kept_albums as int]),
{
    reveal(crate::reconciler::on_songs);
    let i = p.kept_artists as int;
    let n = p.kept_albums as int;
    let node = c.artists[i];
    let an = node.albums[n];
    let d = t[p.artist];
    let da = d.albums[p.album];
    let mid = Progress {
        songs: rows,
        song_deletes: stale(rows, song_paths(da)),
        song_delete_pos: 0,
        song_adds: missing(da.songs, row_keys(rows)),
        ..p
    };
    assert(album_place(c.artists, i, n));
    assert(rows == keyed_songs(an));
    lemma_album_at_hand(p, c, t);
    assert(mid.song_deletes.take(0) =~= Seq::<u128>::empty());
    assert forall|x: int| 0 <= x < rows.len() implies rows.contains(#[trigger] rows[x]) by {}
    assert(artists_inv(mid, c, t, 1));
    assert(albums_inv(mid, node, d, 1));
    assert(songs_inv(mid, an, da));
}

/// What follows the song rows of the album under work.
proof fn lemma_on_songs(p: Progress, c: Stored, t: Seq<DiskArtist>, c0: Stored, rows: Seq<RowKey>)
    requires
        inv(p, c, t, c0),
        p.awaiting is Songs,
        answers(c, pending(p, t), c, Reply::Songs { rows }),
    ensures
        ({
            let (q, req) = crate::reconciler::on_songs(p, t, rows);
            &&& inv(q, c, t, c0)
            &&& req == pending(q, t)
            &&& nearer(measure(q, c, t), measure(p, c, t))
        }),
{
    reveal(crate::reconciler::on_songs);
    lemma_ready_songs(p, c, t, c0, rows);
    lemma_resume_songs(crate::reconciler::after_songs(p, t, rows), c, t, c0);
    let (q, req) = resume_songs(crate::reconciler::after_songs(p, t, rows), t);
    lemma_measure(q, c, t, c0);
}

/// With one more song row deleted, the songs can be gone on with.
pub proof fn lemma_ready_song_gone(p: Progress, c: Stored, t: Seq<DiskArtist>, c0: Stored, c2: Stored)
    requires
        inv(p, c, t, c0),
        p.awaiting is SongGone,
        answers(c, pending(p, t), c2, Reply::Done),
        well_kept(c2),
    ensures
        ready_songs(crate::reconciler::after_song_gone(p), c2, t, c0),
        exists|x: int|
            song_place(c.artists, p.kept_artists as int, p.kept_albums as int, x)
                && (#[trigger] c.artists[p.kept_artists as int].albums[p.kept_albums as int].songs[x]).id
                == p.song_deletes[p.song_delete_pos] && c2 == crate::queries::without_song(
                c,
                p.kept_artists as int,
                p.kept_albums as int,
                x,
            ),
{
    reveal(crate::reconciler::on_song_gone);
    let i = p.kept_artists as int;
    let n = p.kept_albums as int;
    let node = c.artists[i];
    let an = node.albums[n];
    let d = t[p.artist];
    let da = d.albums[p.album];
    let nodes = keyed_songs(an);
    let rows = p.songs;
    let id = p.song_deletes[p.song_delete_pos];
    let gone = p.song_deletes.take(p.song_delete_pos);
    let mid = Progress { song_delete_pos: p.song_delete_pos + 1, ..p };
    lemma_album_at_hand(p, c, t);
    crate::plan::lemma_stale_upto(rows, song_paths(da), rows.len() as int);
    assert(crate::plan::loses_place(rows, song_paths(da), rows.len() as int, id));
    let k = choose|k: int|
        0 <= k < rows.len() && !keeps(song_paths(da), row_keys(rows), k) && (#[trigger] rows[k]).id
            == id;
    if gone.contains(id) {
        let y = choose|y: int| 0 <= y < gone.len() && gone[y] == id;
        assert(p.song_deletes[y] == p.song_deletes[p.song_delete_pos]);
    }
    assert(nodes.contains(rows[k]));
    let x = choose|x: int| 0 <= x < nodes.len() && nodes[x] == rows[k];
    assert(an.songs[x].id == id);
    assert(song_place(c.artists, i, n, x));
    assert(c2 == crate::queries::without_song(c, i, n, x));
    let node2 = c2.artists[i];
    let an2 = node2.albums[n];
    let nodes2 = keyed_songs(an2);
    let gone2 = mid.song_deletes.take(mid.song_delete_pos);
    lemma_artist_frame(p, c, c2, t);
    lemma_album_frame(p, node, node2, d);
    assert(artists_inv(mid, c2, t, 1));
    assert(albums_inv(mid, node2, d, 1));
    assert(gone2 =~= gone.push(id));
    assert forall|y: int| 0 <= y < nodes2.len() implies rows.contains(#[trigger] nodes2[y])
        && !gone2.contains(nodes2[y].id) by {
        let w = if y >= x {
            y + 1
        } else {
            y
        };
        assert(nodes2[y] == nodes[w]);
        assert(an.songs[w].id != an.songs[x].id);
        if gone2.contains(nodes2[y].id) {
            let z = choose|z: int| 0 <= z < gone2.len() && gone2[z] == nodes2[y].id;
            if z < gone.len() {
                assert(gone[z] == nodes[w].id);
            }
        }
    }
    assert forall|r: int|
        0 <= r < rows.len() && !gone2.contains((#[trigger] rows[r]).id) implies nodes2.contains(
        rows[r],
    ) by {
        if gone.contains(rows[r].id) {
            let z = choose|z: int| 0 <= z < gone.len() && gone[z] == rows[r].id;
            assert(gone2[z] == rows[r].id);
        }
        assert(gone2[gone.len() as int] == id);
        assert(rows[r].id != id);
        assert(nodes.contains(rows[r]));
        let w = choose|w: int| 0 <= w < nodes.len() && nodes[w] == rows[r];
        let y = if w > x {
            w - 1
        } else {
            w
        };
        assert(nodes2[y] == nodes[w]);
    }
    assert(songs_inv(mid, an2, da));
}

/// What follows the deletion of a song row.
proof fn lemma_on_song_gone(p: Progress, c: Stored, t: Seq<DiskArtist>, c0: Stored, c2: Stored)
    requires
        inv(p, c, t, c0),
        p.awaiting is SongGone,
        answers(c, pending(p, t), c2, Reply::Done),
        well_kept(c2),
    ensures
        ({
            let (q, req) = crate::reconciler::on_song_gone(p, t);
            &&& inv(q, c2, t, c0)
            &&& req == pending(q, t)
            &&& nearer(measure(q, c2, t), measure(p, c, t))
        }),
{
    reveal(crate::reconciler::on_song_gone);
    lemma_ready_song_gone(p, c, t, c0, c2);
    lemma_resume_songs(crate::reconciler::after_song_gone(p), c2, t, c0);
    let (q, req) = resume_songs(crate::reconciler::after_song_gone(p), t);
    lemma_measure(q, c2, t, c0);
}

/// With the songs to add stored, the album under work mirrors its album on disk and can be left.
pub proof fn lemma_ready_songs_added(p: Progress, c: Stored, t: Seq<DiskArtist>, c0: Stored, c2: Stored)
    requires
        inv(p, c, t, c0),
        p.awaiting is SongsAdded,
        answers(c, pending(p, t), c2, Reply::Done),
        well_kept(c2),
    ensures
        ready_to_leave_album(p, c2, t, c0),
        c2 == crate::queries::with_songs(
            c,
            p.kept_artists as int,
            p.kept_albums as int,
            p.song_adds,
        ),
{
    let i = p.kept_artists as int;
    let n = p.kept_albums as int;
    let node = c.artists[i];
    let an = node.albums[n];
    let d = t[p.artist];
    let da = d.albums[p.album];
    lemma_album_at_hand(p, c, t);
    assert(c2 == crate::queries::with_songs(c, i, n, p.song_adds));
    let node2 = c2.artists[i];
    let an2 = node2.albums[n];
    lemma_artist_frame(p, c, c2, t);
    lemma_album_frame(p, node, node2, d);
    lemma_album_done(p, an, da, an2);
}

/// What follows the storing of the songs to add under the album under work.
proof fn lemma_on_songs_added(p: Progress, c: Stored, t: Seq<DiskArtist>, c0: Stored, c2: Stored)
    requires
        inv(p, c, t, c0),
        p.awaiting is SongsAdded,
        answers(c, pending(p, t), c2, Reply::Done),
        well_kept(c2),
    ensures
        ({
            let (q, req) = finish_album(p, t);
            &&& inv(q, c2, t, c0)
            &&& req == pending(q, t)
            &&& nearer(measure(q, c2, t), measure(p, c, t))
        }),
{
    lemma_ready_songs_added(p, c, t, c0, c2);
    lemma_finish_album(p, c2, t, c0);
    let (q, req) = finish_album(p, t);
    lemma_measure(q, c2, t, c0);
}

/// With a new album stored under the artist under work, its songs can be gone on with.
pub proof fn lemma_ready_album_added(
    p: Progress,
    c: Stored,
    t: Seq<DiskArtist>,
    c0: Stored,
    c2: Stored,
    id: u128,
)
    requires
        inv(p, c, t, c0),
        p.awaiting is AlbumAdded,
        answers(c, pending(p, t), c2, Reply::Added { id }),
        well_kept(c2),
    ensures
        ready_songs(crate::reconciler::after_album_added(p, t, id), c2, t, c0),
        c2 == crate::queries::with_album(
            c,
            p.kept_artists as int,
            t[p.artist].albums[p.album].name,
            t[p.artist].albums[p.album].year,
        ),
{
    reveal(crate::reconciler::on_album_added);
    let i = p.kept_artists as int;
    let n = p.kept_albums as int;
    let node = c.artists[i];
    let d = t[p.artist];
    let da = d.albums[p.album];
    let want = album_names(d);
    let have = row_keys(keyed_albums(node));
    let mid = Progress {
        album_seen: p.album_seen.update(p.album, true),
        album_id: id,
        songs: Seq::empty(),
        song_deletes: Seq::empty(),
        song_delete_pos: 0,
        song_adds: da.songs,
        ..p
    };
    assert(holds_artist(c.artists, p.artist_id)) by {
        assert(c.artists[i].id == p.artist_id);
    }
    assert(c2 == crate::queries::with_album(c, i, da.name, da.year));
    let node2 = c2.artists[i];
    let an2 = node2.albums[n];
    lemma_artist_frame(p, c, c2, t);
    assert(artists_inv(mid, c2, t, 1));
    assert(crate::tree::artist_well_formed(d));
    assert(!p.album_seen[p.album]);
    lemma_push(have, want, p.album_seen, p.album);
    lemma_adds_next(p.new_albums, p.new_album_pos, p.album_seen);
    lemma_position_of(want, p.album);
    assert(row_keys(keyed_albums(node2)) =~= have.push(want[p.album]));
    assert forall|y: int| 0 <= y < n implies album_mirrors(
        #[trigger] node2.albums[y],
        d.albums[position(album_names(d), node2.albums[y].name)->0],
    ) by {
        assert(node2.albums[y] == node.albums[y]);
    }
    assert(albums_inv(mid, node2, d, 1));
    crate::plan::lemma_all_missing(da.songs, da.songs.len() as int);
    assert(da.songs.take(da.songs.len() as int) =~= da.songs);
    assert(row_keys(Seq::<RowKey>::empty()) =~= Seq::<Key>::empty());
    assert(keyed_songs(an2) =~= Seq::<RowKey>::empty());
    assert(songs_inv(mid, an2, da));
}

/// What follows the storing of a new album under the artist under work.
proof fn lemma_on_album_added(
    p: Progress,
    c: Stored,
    t: Seq<DiskArtist>,
    c0: Stored,
    c2: Stored,
    id: u128,
)
    requires
        inv(p, c, t, c0),
        p.awaiting is AlbumAdded,
        answers(c, pending(p, t), c2, Reply::Added { id }),
        well_kept(c2),
    ensures
        ({
            let (q, req) = crate::reconciler::on_album_added(p, t, id);
            &&& inv(q, c2, t, c0)
            &&& req == pending(q, t)
            &&& nearer(measure(q, c2, t), measure(p, c, t))
        }),
{
    reveal(crate::reconciler::on_album_added);
    lemma_ready_album_added(p, c, t, c0, c2, id);
    lemma_resume_songs(crate::reconciler::after_album_added(p, t, id), c2, t, c0);
    let (q, req) = resume_songs(crate::reconciler::after_album_added(p, t, id), t);
    lemma_measure(q, c2, t, c0);
}

/// With a new artist stored, its albums can be gone on with.
pub proof fn lemma_ready_artist_added(
    p: Progress,
    c: Stored,
    t: Seq<DiskArtist>,
    c0: Stored,
    c2: Stored,
    id: u128,
)
    requires
        inv(p, c, t, c0),
        p.awaiting is ArtistAdded,
        answers(c, pending(p, t), c2, Reply::Added { id }),
        well_kept(c2),
    ensures
        ready_albums(crate::reconciler::after_artist_added(p, t, id), c2, t, c0),
        c2 == crate::queries::with_artist(c, t[p.artist].name),
{
    reveal(crate::reconciler::on_artist_added);
    let n = p.kept_artists as int;
    let d = t[p.artist];
    let want = artist_names(t);
    let have = row_keys(keyed_artists(c.artists));
    let seen = Seq::new(d.albums.len(), |l: int| false);
    let mid = Progress {
        artist_seen: p.artist_seen.update(p.artist, true),
        artist_id: id,
        album_seen: seen,
        albums: Seq::empty(),
        album_pos: 0,
        listing: false,
        new_albums: unseen(seen),
        new_album_pos: 0,
        kept_albums: 0,
        ..p
    };
    assert(c2 == crate::queries::with_artist(c, d.name));
    let node2 = c2.artists[n];
    assert(!p.artist_seen[p.artist]);
    lemma_push(have, want, p.artist_seen, p.artist);
    lemma_adds_next(p.new_artists, p.new_artist_pos, p.artist_seen);
    lemma_position_of(want, p.artist);
    assert(row_keys(keyed_artists(c2.artists)) =~= have.push(want[p.artist]));
    assert forall|i: int| 0 <= i < n implies artist_mirrors(
        #[trigger] c2.artists[i],
        t[position(artist_names(t), c2.artists[i].name)->0],
    ) by {
        assert(c2.artists[i] == c.artists[i]);
    }
    assert(artists_inv(mid, c2, t, 1));
    crate::keys::lemma_unseen(seen);
    lemma_adds_begin(seen);
    assert(crate::tree::artist_well_formed(d));
    let have_albums = row_keys(keyed_albums(node2));
    assert(have_albums.take(0) =~= Seq::<Key>::empty());
    assert(albums_inv(mid, node2, d, 0));
}

/// What follows the storing of a new artist.
proof fn lemma_on_artist_added(
    p: Progress,
    c: Stored,
    t: Seq<DiskArtist>,
    c0: Stored,
    c2: Stored,
    id: u128,
)
    requires
        inv(p, c, t, c0),
        p.awaiting is ArtistAdded,
        answers(c, pending(p, t), c2, Reply::Added { id }),
        well_kept(c2),
    ensures
        ({
            let (q, req) = crate::reconciler::on_artist_added(p, t, id);
            &&& inv(q, c2, t, c0)
            &&& req == pending(q, t)
            &&& nearer(measure(q, c2, t), measure(p, c, t))
        }),
{
    reveal(crate::reconciler::on_artist_added);
    lemma_ready_artist_added(p, c, t, c0, c2, id);
    lemma_add_albums(crate::reconciler::after_artist_added(p, t, id), c2, t, c0);
    let (q, req) = add_albums(crate::reconciler::after_artist_added(p, t, id), t);
    lemma_measure(q, c2, t, c0);
}

/// At the start of a run the machine and the catalog are as they should be.
pub proof fn lemma_begin(c: Stored, t: Seq<DiskArtist>)
    requires
        well_kept(c),
        well_formed(t),
    ensures
        inv(crate::reconciler::begin(t).0, c, t, c),
        crate::reconciler::begin(t).1 == pending(crate::reconciler::begin(t).0, t),
{
    let p = crate::reconciler::begin(t).0;
    let have = row_keys(keyed_artists(c.artists));
    assert(have.take(0) =~= Seq::<Key>::empty());
    assert(level_ok(have, artist_names(t), p.artist_seen, 0));
}

/// From one operation to the next: where the machine and the catalog were as they
/// should be and the operation did not fail, they are so again, the request is the one
/// that the machine now waits to be answered, and the run has come nearer to its end.
pub proof fn lemma_step(
    p: Progress,
    c: Stored,
    t: Seq<DiskArtist>,
    c0: Stored,
    c2: Stored,
    reply: Reply,
)
    requires
        inv(p, c, t, c0),
        !(p.awaiting is Nothing),
        answers(c, pending(p, t), c2, reply),
        well_kept(c2),
        !(reply is Failed),
    ensures
        ({
            let (q, req) = advance(p, t, reply);
            &&& inv(q, c2, t, c0)
            &&& req == pending(q, t)
            &&& nearer(measure(q, c2, t), measure(p, c, t))
        }),
{
    match p.awaiting {
        Awaiting::Page => {
            lemma_on_page(p, c, t, c0, reply->Artists_rows, reply->has_more);
        },
        Awaiting::ArtistGone => {
            lemma_on_artist_gone(p, c, t, c0, c2);
        },
        Awaiting::Albums => {
            lemma_on_albums(p, c, t, c0, reply->Albums_rows);
        },
        Awaiting::AlbumGone => {
            lemma_on_album_gone(p, c, t, c0, c2);
        },
        Awaiting::Songs => {
            lemma_on_songs(p, c, t, c0, reply->Songs_rows);
        },
        Awaiting::SongGone => {
            lemma_on_song_gone(p, c, t, c0, c2);
        },
        Awaiting::SongsAdded => {
            lemma_on_songs_added(p, c, t, c0, c2);
        },
        Awaiting::AlbumAdded => {
            lemma_on_album_added(p, c, t, c0, c2, reply->id);
        },
        Awaiting::ArtistAdded => {
            lemma_on_artist_added(p, c, t, c0, c2, reply->id);
        },
        Awaiting::Nothing => {},
    }
}

} // verus!
