//! What a run leaves alone: a stored artist, album or song that keeps its place is
//! still stored when the run has ended. This file holds what is true of that between
//! any two operations.

use crate::convergence::{
    album_context, album_mirrors, albums_inv, artist_context, artists_inv, at_albums, at_songs,
    grounded, inv, lemma_album_at_hand, lemma_ready_album_added, lemma_ready_album_gone,
    lemma_ready_albums, lemma_ready_artist_added, lemma_ready_artist_gone, lemma_ready_page,
    lemma_ready_song_gone, lemma_ready_songs, lemma_ready_songs_added, one_if, page_known,
    pending, songs_inv, under_album, under_artist,
};
use crate::database_sync::{answers, keyed_albums, keyed_artists, keyed_songs};
use crate::keys::{
    keeps, lemma_position, lemma_position_found, lemma_position_grows, lemma_position_take,
    position, unseen, Key,
};
use crate::plan::{missing, row_keys, stale, RowKey};
use crate::queries::{album_place, song_place, well_kept, AlbumRec, ArtistRec, Stored};
use crate::reconciler::{
    add_albums, add_artists, advance, after_album_added, after_album_gone, after_albums,
    after_artist_added, after_artist_gone, after_page, after_song_gone, after_songs,
    album_in_range, albums_in_range, artist_in_range,
    artists_in_range, finish_album, finish_artist, resume_albums, resume_artists, resume_songs,
    Awaiting, Progress, Reply,
};
use crate::tree::{album_names, artist_names, song_paths, well_formed, DiskAlbum, DiskArtist};
use vstd::prelude::*;

verus! {

/// The stored album `now` is the album `orig` of before, and still has every song of it
/// that keeps its place.
pub open spec fn album_retained(orig: AlbumRec, now: AlbumRec, da: DiskAlbum) -> bool {
    &&& now.id == orig.id
    &&& now.name == orig.name
    &&& now.year == orig.year
    &&& forall|k: int|
        0 <= k < orig.songs.len() && keeps(song_paths(da), row_keys(keyed_songs(orig)), k)
            ==> now.songs.contains(#[trigger] orig.songs[k])
}

/// One of these albums is the album `orig` of before, retained.
pub open spec fn holds_retained_album(orig: AlbumRec, albums: Seq<AlbumRec>, da: DiskAlbum) -> bool {
    exists|y: int| 0 <= y < albums.len() && album_retained(orig, #[trigger] albums[y], da)
}

/// Each of the first `upto` albums that the artist `orig` had before, and that keeps its
/// place, is among these albums, retained.
pub open spec fn albums_retained(
    orig: ArtistRec,
    now: Seq<AlbumRec>,
    d: DiskArtist,
    upto: int,
) -> bool {
    forall|k: int|
        0 <= k < upto && k < orig.albums.len() && keeps(
            album_names(d),
            row_keys(keyed_albums(orig)),
            k,
        ) ==> holds_retained_album(
            #[trigger] orig.albums[k],
            now,
            d.albums[position(album_names(d), orig.albums[k].name)->0],
        )
}

/// The stored artist `now` is the artist `orig` of before, with every album of it that
/// keeps its place retained.
pub open spec fn artist_retained(orig: ArtistRec, now: ArtistRec, d: DiskArtist) -> bool {
    now.id == orig.id && now.name == orig.name && albums_retained(
        orig,
        now.albums,
        d,
        orig.albums.len() as int,
    )
}

/// One of these artists is the artist `orig` of before, retained.
pub open spec fn holds_retained_artist(
    orig: ArtistRec,
    artists: Seq<ArtistRec>,
    d: DiskArtist,
) -> bool {
    exists|i: int| 0 <= i < artists.len() && artist_retained(orig, #[trigger] artists[i], d)
}

/// Each of the first `upto` artists stored before that keeps its place is among the
/// artists stored now, retained.
pub open spec fn artists_retained(
    before: Seq<ArtistRec>,
    now: Seq<ArtistRec>,
    t: Seq<DiskArtist>,
    upto: int,
) -> bool {
    forall|i: int|
        0 <= i < upto && i < before.len() && keeps(
            artist_names(t),
            row_keys(keyed_artists(before)),
            i,
        ) ==> holds_retained_artist(
            #[trigger] before[i],
            now,
            t[position(artist_names(t), before[i].name)->0],
        )
}

/// Whatever was stored before and keeps its place is stored now: each such artist under
/// its identifier, each such album of it under its identifier, and each such song of
/// that album as it was.
pub open spec fn retains(before: Seq<ArtistRec>, now: Seq<ArtistRec>, t: Seq<DiskArtist>) -> bool {
    artists_retained(before, now, t, before.len() as int)
}

/// An artist without albums.
pub open spec fn no_albums() -> ArtistRec {
    ArtistRec { id: 0, name: Seq::empty(), albums: Seq::empty() }
}

/// An album without songs.
pub open spec fn no_songs() -> AlbumRec {
    AlbumRec { id: 0, name: Seq::empty(), year: 0, songs: Seq::empty() }
}

/// The artist under work as it was stored before; one without albums where the artist
/// is new.
pub open spec fn orig_artist(p: Progress, c0: Stored) -> ArtistRec {
    if p.scanning {
        c0.artists[p.rows_passed as int]
    } else {
        no_albums()
    }
}

/// The album under work as it was stored before; one without songs where the album is
/// new.
pub open spec fn orig_album(p: Progress, c0: Stored) -> AlbumRec {
    if p.scanning && p.listing {
        c0.artists[p.rows_passed as int].albums[p.album_pos]
    } else {
        no_songs()
    }
}

/// What holds of the stored songs of the album under work, measured by the album as it
/// was before: the rows read are its songs, and each of them that has not been deleted
/// is still stored as it was.
pub open spec fn songs_kept(p: Progress, an: AlbumRec, orig: AlbumRec) -> bool {
    let gone = p.song_deletes.take(p.song_delete_pos);
    &&& p.songs == keyed_songs(orig)
    &&& forall|k: int|
        0 <= k < orig.songs.len() && !gone.contains((#[trigger] orig.songs[k]).id)
            ==> an.songs.contains(orig.songs[k])
}

/// What holds of the stored albums of the artist under work, measured by the artist as
/// it was before. `cur` is 1 while an album is under work.
pub open spec fn albums_kept(
    p: Progress,
    node: ArtistRec,
    orig: ArtistRec,
    d: DiskArtist,
    cur: int,
) -> bool {
    let q = p.kept_albums as int;
    let a = p.album_pos;
    if p.listing {
        &&& p.scanning
        &&& p.albums == keyed_albums(orig)
        &&& 0 <= a
        &&& node.albums.len() == q + (orig.albums.len() - a)
        &&& forall|k: int|
            a + cur <= k < orig.albums.len() ==> node.albums[q + (k - a)] == #[trigger] orig.albums[k]
        &&& cur == 1 ==> node.albums[q].id == orig.albums[a].id && node.albums[q].name
            == orig.albums[a].name && node.albums[q].year == orig.albums[a].year
        &&& forall|l: int|
            0 <= l < p.album_seen.len() && #[trigger] p.album_seen[l] ==> position(
                row_keys(keyed_albums(orig)).take(a + cur),
                album_names(d)[l],
            ) is Some
        &&& albums_retained(orig, node.albums.take(q), d, a)
    } else {
        albums_retained(orig, node.albums.take(q), d, orig.albums.len() as int)
    }
}

/// What holds of the stored artists, measured by the catalog as it was before. `cur` is
/// 1 while an artist is under work.
pub open spec fn artists_kept(
    p: Progress,
    c: Stored,
    c0: Stored,
    t: Seq<DiskArtist>,
    cur: int,
) -> bool {
    let n = p.kept_artists as int;
    let o = p.rows_passed as int;
    &&& artists_retained(c0.artists, c.artists.take(n), t, o)
    &&& if p.scanning {
        &&& o + (c.artists.len() - n) == c0.artists.len()
        &&& forall|k: int|
            n + cur <= k < c.artists.len() ==> #[trigger] c.artists[k] == c0.artists[o + (k - n)]
        &&& cur == 1 ==> c.artists[n].id == c0.artists[o].id && c.artists[n].name
            == c0.artists[o].name
        &&& forall|j: int|
            0 <= j < p.artist_seen.len() && #[trigger] p.artist_seen[j] ==> position(
                row_keys(keyed_artists(c0.artists)).take(o + cur),
                artist_names(t)[j],
            ) is Some
    } else {
        o == c0.artists.len()
    }
}

/// What holds, between any two operations of a run that began on the catalog `c0`, of
/// what was stored then and keeps its place.
pub open spec fn kept(p: Progress, c: Stored, t: Seq<DiskArtist>, c0: Stored) -> bool {
    let n = p.kept_artists as int;
    let o = p.rows_passed as int;
    let q = p.kept_albums as int;
    if p.awaiting is Nothing {
        retains(c0.artists, c.artists, t)
    } else {
        &&& artists_kept(p, c, c0, t, one_if(under_artist(p.awaiting)))
        &&& p.awaiting is Albums ==> c.artists[n] == c0.artists[o]
        &&& p.awaiting is ArtistGone ==> !keeps(
            artist_names(t),
            row_keys(keyed_artists(c0.artists)),
            o,
        )
        &&& at_albums(p.awaiting) ==> albums_kept(
            p,
            c.artists[n],
            orig_artist(p, c0),
            t[p.artist],
            one_if(under_album(p.awaiting)),
        )
        &&& p.awaiting is Songs ==> c.artists[n].albums[q] == orig_artist(p, c0).albums[p.album_pos]
        &&& p.awaiting is AlbumGone ==> !keeps(
            album_names(t[p.artist]),
            row_keys(keyed_albums(orig_artist(p, c0))),
            p.album_pos,
        )
        &&& at_songs(p.awaiting) ==> songs_kept(p, c.artists[n].albums[q], orig_album(p, c0))
    }
}

/// What is retained among artists is retained among more artists.
proof fn lemma_artists_retained_grow(
    before: Seq<ArtistRec>,
    now: Seq<ArtistRec>,
    more: Seq<ArtistRec>,
    t: Seq<DiskArtist>,
    upto: int,
)
    requires
        artists_retained(before, now, t, upto),
        now.len() <= more.len(),
        forall|i: int| 0 <= i < now.len() ==> more[i] == now[i],
    ensures
        artists_retained(before, more, t, upto),
{
    assert forall|i: int|
        0 <= i < upto && i < before.len() && keeps(
            artist_names(t),
            row_keys(keyed_artists(before)),
            i,
        ) implies holds_retained_artist(
        #[trigger] before[i],
        more,
        t[position(artist_names(t), before[i].name)->0],
    ) by {
        let d = t[position(artist_names(t), before[i].name)->0];
        let w = choose|w: int| 0 <= w < now.len() && artist_retained(before[i], #[trigger] now[w], d);
        assert(artist_retained(before[i], more[w], d));
    }
}

/// What is retained among albums is retained among more albums.
proof fn lemma_albums_retained_grow(
    orig: ArtistRec,
    now: Seq<AlbumRec>,
    more: Seq<AlbumRec>,
    d: DiskArtist,
    upto: int,
)
    requires
        albums_retained(orig, now, d, upto),
        now.len() <= more.len(),
        forall|y: int| 0 <= y < now.len() ==> more[y] == now[y],
    ensures
        albums_retained(orig, more, d, upto),
{
    assert forall|k: int|
        0 <= k < upto && k < orig.albums.len() && keeps(
            album_names(d),
            row_keys(keyed_albums(orig)),
            k,
        ) implies holds_retained_album(
        #[trigger] orig.albums[k],
        more,
        d.albums[position(album_names(d), orig.albums[k].name)->0],
    ) by {
        let da = d.albums[position(album_names(d), orig.albums[k].name)->0];
        let w = choose|w: int| 0 <= w < now.len() && album_retained(orig.albums[k], #[trigger] now[w], da);
        assert(album_retained(orig.albums[k], more[w], da));
    }
}

/// A row that is deleted does not keep its place: its key is not on disk, or it stands
/// among the keys of the rows before it.
proof fn lemma_not_kept(disk: Seq<Key>, keys: Seq<Key>, k: int, seen: Seq<bool>)
    requires
        0 <= k < keys.len(),
        seen.len() == disk.len(),
        forall|j: int|
            0 <= j < seen.len() && #[trigger] seen[j] ==> position(keys.take(k), disk[j]) is Some,
        match position(disk, keys[k]) {
            Some(j) => seen[j],
            None => true,
        },
    ensures
        !keeps(disk, keys, k),
{
    lemma_position(disk, keys[k]);
    match position(disk, keys[k]) {
        Some(j) => {
            lemma_position_take(keys, k, disk[j]);
        },
        None => {},
    }
}

/// Marking the place of the key of row `k` keeps every marked place among the keys of
/// the rows up to and with `k`.
proof fn lemma_seen_grows(disk: Seq<Key>, keys: Seq<Key>, k: int, seen: Seq<bool>, j: int)
    requires
        0 <= k < keys.len(),
        seen.len() == disk.len(),
        0 <= j < disk.len(),
        disk[j] == keys[k],
        forall|x: int|
            0 <= x < seen.len() && #[trigger] seen[x] ==> position(keys.take(k), disk[x]) is Some,
    ensures
        forall|x: int|
            0 <= x < seen.len() && #[trigger] seen.update(j, true)[x] ==> position(
                keys.take(k + 1),
                disk[x],
            ) is Some,
{
    assert forall|x: int| 0 <= x < seen.len() && #[trigger] seen.update(j, true)[x] implies position(
        keys.take(k + 1),
        disk[x],
    ) is Some by {
        if x == j {
            lemma_position_found(keys, k, k + 1);
        } else {
            assert(seen[x]);
            lemma_position_grows(keys, k, k + 1, disk[x]);
        }
    }
}

/// Passing a row keeps every marked place among the keys of the rows passed.
proof fn lemma_seen_passes(disk: Seq<Key>, keys: Seq<Key>, k: int, seen: Seq<bool>)
    requires
        0 <= k < keys.len(),
        seen.len() == disk.len(),
        forall|x: int|
            0 <= x < seen.len() && #[trigger] seen[x] ==> position(keys.take(k), disk[x]) is Some,
    ensures
        forall|x: int|
            0 <= x < seen.len() && #[trigger] seen[x] ==> position(keys.take(k + 1), disk[x]) is Some,
{
    assert forall|x: int| 0 <= x < seen.len() && #[trigger] seen[x] implies position(
        keys.take(k + 1),
        disk[x],
    ) is Some by {
        lemma_position_grows(keys, k, k + 1, disk[x]);
    }
}

/// Going on with the artists still to be added leaves what is retained as it is.
proof fn lemma_k_add_artists(p: Progress, c: Stored, t: Seq<DiskArtist>, c0: Stored)
    requires
        artists_in_range(p, t),
        !p.scanning,
        artists_inv(p, c, t, 0),
        artists_kept(p, c, c0, t, 0),
    ensures
        kept(add_artists(p, t).0, c, t, c0),
{
    reveal(add_artists);
    let n = p.kept_artists as int;
    if !(0 <= p.new_artist_pos < p.new_artists.len()) {
        assert(c.artists.take(n) =~= c.artists);
    }
}

/// Going on with the stored artists at the cursor leaves what is retained as it is, and
/// a row that is to be deleted does not keep its place.
proof fn lemma_k_resume_artists(p: Progress, c: Stored, t: Seq<DiskArtist>, c0: Stored)
    requires
        well_formed(t),
        artists_in_range(p, t),
        artists_inv(p, c, t, 0),
        page_known(p, c),
        artists_kept(p, c, c0, t, 0),
    ensures
        kept(resume_artists(p, t).0, c, t, c0),
{
    reveal(resume_artists);
    let q = resume_artists(p, t).0;
    let n = p.kept_artists as int;
    let o = p.rows_passed as int;
    let want = artist_names(t);
    let names0 = row_keys(keyed_artists(c0.artists));
    if !p.scanning {
        lemma_k_add_artists(p, c, t, c0);
    } else if 0 <= p.page_pos < p.page.len() {
        let row = p.page[p.page_pos];
        assert(keyed_artists(c.artists)[n + (p.page_pos - p.page_pos)] == row);
        assert(c.artists[n] == c0.artists[o + (n - n)]);
        assert(names0[o] == row.key);
        lemma_position(want, row.key);
        match position(want, row.key) {
            Some(j) => {
                if !p.artist_seen[j] {
                    lemma_seen_grows(want, names0, o, p.artist_seen, j);
                    assert(artists_kept(q, c, c0, t, 1));
                } else {
                    lemma_not_kept(want, names0, o, p.artist_seen);
                    assert(artists_kept(q, c, c0, t, 0));
                }
            },
            None => {
                lemma_not_kept(want, names0, o, p.artist_seen);
                assert(artists_kept(q, c, c0, t, 0));
            },
        }
    } else if p.more_pages {
        assert(artists_kept(q, c, c0, t, 0));
    } else {
        let mid = Progress {
            scanning: false,
            new_artists: unseen(p.artist_seen),
            new_artist_pos: 0,
            ..p
        };
        crate::keys::lemma_unseen(p.artist_seen);
        crate::matching::lemma_adds_begin(p.artist_seen);
        assert(artists_inv(mid, c, t, 0));
        assert(artists_kept(mid, c, c0, t, 0));
        lemma_k_add_artists(mid, c, t, c0);
    }
}

/// Leaving the artist under work, which is retained where it was stored before, leaves
/// what is retained as it is.
proof fn lemma_k_finish_artist(p: Progress, c: Stored, t: Seq<DiskArtist>, c0: Stored)
    requires
        well_kept(c),
        well_formed(t),
        artist_in_range(p, t),
        artist_context(p, c, t),
        artists_kept(p, c, c0, t, 1),
        crate::convergence::artist_mirrors(c.artists[p.kept_artists as int], t[p.artist]),
        p.scanning ==> artist_retained(
            c0.artists[p.rows_passed as int],
            c.artists[p.kept_artists as int],
            t[p.artist],
        ),
    ensures
        kept(finish_artist(p, t).0, c, t, c0),
{
    reveal(finish_artist);
    let n = p.kept_artists as int;
    let o = p.rows_passed as int;
    let mid = if p.scanning {
        Progress {
            page_pos: p.page_pos + 1,
            passed: Some(p.artist_id),
            kept_artists: p.kept_artists + 1,
            rows_passed: p.rows_passed + 1,
            ..p
        }
    } else {
        Progress { new_artist_pos: p.new_artist_pos + 1, kept_artists: p.kept_artists + 1, ..p }
    };
    lemma_artists_retained_grow(c0.artists, c.artists.take(n), c.artists.take(n + 1), t, o);
    assert forall|i: int| 0 <= i < n + 1 implies crate::convergence::artist_mirrors(
        #[trigger] c.artists[i],
        t[position(artist_names(t), c.artists[i].name)->0],
    ) by {}
    if p.scanning {
        assert forall|i: int|
            0 <= i < o + 1 && i < c0.artists.len() && keeps(
                artist_names(t),
                row_keys(keyed_artists(c0.artists)),
                i,
            ) implies holds_retained_artist(
            #[trigger] c0.artists[i],
            c.artists.take(n + 1),
            t[position(artist_names(t), c0.artists[i].name)->0],
        ) by {
            if i == o {
                assert(artist_retained(c0.artists[o], c.artists.take(n + 1)[n], t[p.artist]));
            }
        }
        assert(crate::convergence::rows_ahead(
            mid.page,
            mid.page_pos,
            keyed_artists(c.artists),
            n + 1,
        )) by {
            assert forall|k: int| mid.page_pos <= k < mid.page.len() implies keyed_artists(
                c.artists,
            )[n + 1 + (k - mid.page_pos)] == #[trigger] mid.page[k] by {
                assert(keyed_artists(c.artists)[n + (k - p.page_pos)] == p.page[k]);
            }
        }
        assert(crate::convergence::passed_ok(mid.passed, c.artists, n + 1));
    }
    assert(artists_inv(mid, c, t, 0));
    assert(artists_kept(mid, c, c0, t, 0));
    lemma_k_resume_artists(mid, c, t, c0);
}

/// Going on with the albums still to be added under the artist under work leaves what
/// is retained as it is.
proof fn lemma_k_add_albums(p: Progress, c: Stored, t: Seq<DiskArtist>, c0: Stored)
    requires
        well_kept(c),
        well_formed(t),
        albums_in_range(p, t),
        !p.listing,
        artist_context(p, c, t),
        albums_inv(p, c.artists[p.kept_artists as int], t[p.artist], 0),
        artists_kept(p, c, c0, t, 1),
        albums_kept(p, c.artists[p.kept_artists as int], orig_artist(p, c0), t[p.artist], 0),
    ensures
        kept(add_albums(p, t).0, c, t, c0),
{
    reveal(add_albums);
    let q = add_albums(p, t).0;
    let node = c.artists[p.kept_artists as int];
    let orig = orig_artist(p, c0);
    if 0 <= p.new_album_pos < p.new_albums.len() {
        assert(artists_kept(q, c, c0, t, 1));
        assert(albums_kept(q, node, orig_artist(q, c0), t[q.artist], 0));
    } else {
        let d = t[p.artist];
        assert(node.albums.take(p.kept_albums as int) =~= node.albums);
        lemma_position(artist_names(t), node.name);
        crate::matching::lemma_adds_end(p.new_albums, p.album_seen);
        crate::matching::lemma_level_done(row_keys(keyed_albums(node)), album_names(d), p.album_seen);
        assert(crate::convergence::artist_mirrors(node, d));
        lemma_k_finish_artist(p, c, t, c0);
    }
}

/// Going on with the stored albums of the artist under work at the cursor leaves what is
/// retained as it is, and a row that is to be deleted does not keep its place.
proof fn lemma_k_resume_albums(p: Progress, c: Stored, t: Seq<DiskArtist>, c0: Stored)
    requires
        well_kept(c),
        well_formed(t),
        albums_in_range(p, t),
        artist_context(p, c, t),
        albums_inv(p, c.artists[p.kept_artists as int], t[p.artist], 0),
        artists_kept(p, c, c0, t, 1),
        albums_kept(p, c.artists[p.kept_artists as int], orig_artist(p, c0), t[p.artist], 0),
    ensures
        kept(resume_albums(p, t).0, c, t, c0),
{
    reveal(resume_albums);
    let q = resume_albums(p, t).0;
    let node = c.artists[p.kept_artists as int];
    let orig = orig_artist(p, c0);
    let d = t[p.artist];
    let want = album_names(d);
    let keys0 = row_keys(keyed_albums(orig));
    let n = p.kept_albums as int;
    let a = p.album_pos;
    if !p.listing {
        lemma_k_add_albums(p, c, t, c0);
    } else if 0 <= p.album_pos < p.albums.len() {
        let row = p.albums[a];
        assert(keyed_albums(orig)[a] == row);
        assert(node.albums[n + (a - a)] == orig.albums[a]);
        assert(keys0[a] == row.key);
        lemma_position(want, row.key);
        assert(artists_kept(q, c, c0, t, 1));
        assert(orig_artist(q, c0) == orig);
        match position(want, row.key) {
            Some(l) => {
                if !p.album_seen[l] {
                    lemma_seen_grows(want, keys0, a, p.album_seen, l);
                    assert(albums_kept(q, node, orig, d, 1));
                } else {
                    lemma_not_kept(want, keys0, a, p.album_seen);
                    assert(albums_kept(q, node, orig, d, 0));
                }
            },
            None => {
                lemma_not_kept(want, keys0, a, p.album_seen);
                assert(albums_kept(q, node, orig, d, 0));
            },
        }
    } else {
        let mid = Progress {
            listing: false,
            new_albums: unseen(p.album_seen),
            new_album_pos: 0,
            ..p
        };
        crate::keys::lemma_unseen(p.album_seen);
        crate::matching::lemma_adds_begin(p.album_seen);
        assert(artists_inv(mid, c, t, 1));
        assert(albums_inv(mid, node, d, 0));
        assert(artists_kept(mid, c, c0, t, 1));
        assert(orig_artist(mid, c0) == orig);
        assert(albums_kept(mid, node, orig, d, 0));
        lemma_k_add_albums(mid, c, t, c0);
    }
}

/// Leaving the album under work, which is retained where it was stored before, leaves
/// what is retained as it is.
proof fn lemma_k_finish_album(p: Progress, c: Stored, t: Seq<DiskArtist>, c0: Stored)
    requires
        well_kept(c),
        well_formed(t),
        album_in_range(p, t),
        album_context(p, c, t),
        artists_kept(p, c, c0, t, 1),
        albums_kept(p, c.artists[p.kept_artists as int], orig_artist(p, c0), t[p.artist], 1),
        album_mirrors(
            c.artists[p.kept_artists as int].albums[p.kept_albums as int],
            t[p.artist].albums[p.album],
        ),
        p.listing ==> album_retained(
            orig_artist(p, c0).albums[p.album_pos],
            c.artists[p.kept_artists as int].albums[p.kept_albums as int],
            t[p.artist].albums[p.album],
        ),
    ensures
        kept(finish_album(p, t).0, c, t, c0),
{
    reveal(finish_album);
    let node = c.artists[p.kept_artists as int];
    let orig = orig_artist(p, c0);
    let d = t[p.artist];
    let n = p.kept_albums as int;
    let a = p.album_pos;
    let mid = if p.listing {
        Progress { album_pos: p.album_pos + 1, kept_albums: p.kept_albums + 1, ..p }
    } else {
        Progress { new_album_pos: p.new_album_pos + 1, kept_albums: p.kept_albums + 1, ..p }
    };
    assert(orig_artist(mid, c0) == orig);
    let upto = if p.listing {
        a
    } else {
        orig.albums.len() as int
    };
    lemma_albums_retained_grow(orig, node.albums.take(n), node.albums.take(n + 1), d, upto);
    assert forall|y: int| 0 <= y < n + 1 implies album_mirrors(
        #[trigger] node.albums[y],
        d.albums[position(album_names(d), node.albums[y].name)->0],
    ) by {}
    if p.listing {
        assert forall|k: int|
            0 <= k < a + 1 && k < orig.albums.len() && keeps(
                album_names(d),
                row_keys(keyed_albums(orig)),
                k,
            ) implies holds_retained_album(
            #[trigger] orig.albums[k],
            node.albums.take(n + 1),
            d.albums[position(album_names(d), orig.albums[k].name)->0],
        ) by {
            if k == a {
                assert(album_retained(orig.albums[a], node.albums.take(n + 1)[n], d.albums[p.album]));
            }
        }
        assert(crate::convergence::rows_ahead(mid.albums, mid.album_pos, keyed_albums(node), n + 1)) by {
            assert forall|k: int| mid.album_pos <= k < mid.albums.len() implies keyed_albums(
                node,
            )[n + 1 + (k - mid.album_pos)] == #[trigger] mid.albums[k] by {
                assert(keyed_albums(node)[n + (k - p.album_pos)] == p.albums[k]);
            }
        }
    }
    assert(artists_inv(mid, c, t, 1));
    assert(albums_inv(mid, node, d, 0));
    assert(artists_kept(mid, c, c0, t, 1));
    assert(albums_kept(mid, node, orig, d, 0));
    lemma_k_resume_albums(mid, c, t, c0);
}

/// Once every row that was to go is deleted, the album under work still has every song
/// that it had before and that keeps its place, and so has any album that has its songs
/// and more.
proof fn lemma_album_retained(p: Progress, an: AlbumRec, orig: AlbumRec, da: DiskAlbum, rec: AlbumRec)
    requires
        songs_inv(p, an, da),
        songs_kept(p, an, orig),
        p.song_delete_pos == p.song_deletes.len(),
        rec.id == orig.id,
        rec.name == orig.name,
        rec.year == orig.year,
        an.songs.len() <= rec.songs.len(),
        forall|x: int| 0 <= x < an.songs.len() ==> rec.songs[x] == an.songs[x],
    ensures
        album_retained(orig, rec, da),
{
    let rows = p.songs;
    let disk = song_paths(da);
    assert(p.song_deletes.take(p.song_delete_pos) =~= p.song_deletes);
    crate::plan::lemma_stale_upto(rows, disk, rows.len() as int);
    assert forall|k: int|
        0 <= k < orig.songs.len() && keeps(disk, row_keys(keyed_songs(orig)), k) implies rec.songs.contains(
        #[trigger] orig.songs[k],
    ) by {
        assert(rows[k].id == orig.songs[k].id);
        assert(!p.song_deletes.contains(rows[k].id));
        assert(an.songs.contains(orig.songs[k]));
        let x = choose|x: int| 0 <= x < an.songs.len() && an.songs[x] == orig.songs[k];
        assert(rec.songs[x] == orig.songs[k]);
    }
}

/// Going on with the songs of the album under work leaves what is retained as it is.
proof fn lemma_k_resume_songs(p: Progress, c: Stored, t: Seq<DiskArtist>, c0: Stored)
    requires
        well_kept(c),
        well_formed(t),
        album_in_range(p, t),
        album_context(p, c, t),
        songs_inv(
            p,
            c.artists[p.kept_artists as int].albums[p.kept_albums as int],
            t[p.artist].albums[p.album],
        ),
        artists_kept(p, c, c0, t, 1),
        albums_kept(p, c.artists[p.kept_artists as int], orig_artist(p, c0), t[p.artist], 1),
        songs_kept(
            p,
            c.artists[p.kept_artists as int].albums[p.kept_albums as int],
            orig_album(p, c0),
        ),
    ensures
        kept(resume_songs(p, t).0, c, t, c0),
{
    reveal(resume_songs);
    let q = resume_songs(p, t).0;
    let node = c.artists[p.kept_artists as int];
    let an = node.albums[p.kept_albums as int];
    let d = t[p.artist];
    let da = d.albums[p.album];
    let orig = orig_artist(p, c0);
    if 0 <= p.song_delete_pos < p.song_deletes.len() || p.song_adds.len() > 0 {
        assert(artists_kept(q, c, c0, t, 1));
        assert(orig_artist(q, c0) == orig);
        assert(albums_kept(q, node, orig, d, 1));
        assert(songs_kept(q, an, orig_album(q, c0)));
    } else {
        if p.listing {
            lemma_album_retained(p, an, orig_album(p, c0), da, an);
        }
        lemma_album_at_hand(p, c, t);
        crate::convergence::lemma_album_done(p, an, da, an);
        lemma_k_finish_album(p, c, t, c0);
    }
}

/// A change inside the artist under work leaves what is retained among the artists as
/// it is.
proof fn lemma_k_artist_frame(p: Progress, c: Stored, c2: Stored, c0: Stored, t: Seq<DiskArtist>)
    requires
        artists_kept(p, c, c0, t, 1),
        p.kept_artists < c.artists.len(),
        c2.artists.len() == c.artists.len(),
        forall|i: int|
            0 <= i < c.artists.len() && i != p.kept_artists ==> c2.artists[i] == c.artists[i],
        c2.artists[p.kept_artists as int].id == c.artists[p.kept_artists as int].id,
        c2.artists[p.kept_artists as int].name == c.artists[p.kept_artists as int].name,
    ensures
        artists_kept(p, c2, c0, t, 1),
{
    let n = p.kept_artists as int;
    assert(c2.artists.take(n) =~= c.artists.take(n));
    if p.scanning {
        assert forall|k: int| n + 1 <= k < c2.artists.len() implies #[trigger] c2.artists[k]
            == c0.artists[p.rows_passed + (k - n)] by {
            assert(c2.artists[k] == c.artists[k]);
        }
    }
}

/// A change inside the album under work leaves what is retained among the albums as it
/// is.
proof fn lemma_k_album_frame(
    p: Progress,
    node: ArtistRec,
    node2: ArtistRec,
    orig: ArtistRec,
    d: DiskArtist,
)
    requires
        albums_kept(p, node, orig, d, 1),
        p.kept_albums < node.albums.len(),
        node2.albums.len() == node.albums.len(),
        forall|y: int|
            0 <= y < node.albums.len() && y != p.kept_albums ==> node2.albums[y] == node.albums[y],
        node2.albums[p.kept_albums as int].id == node.albums[p.kept_albums as int].id,
        node2.albums[p.kept_albums as int].name == node.albums[p.kept_albums as int].name,
        node2.albums[p.kept_albums as int].year == node.albums[p.kept_albums as int].year,
    ensures
        albums_kept(p, node2, orig, d, 1),
{
    let q = p.kept_albums as int;
    assert(node2.albums.take(q) =~= node.albums.take(q));
    if p.listing {
        assert forall|k: int| p.album_pos + 1 <= k < orig.albums.len() implies node2.albums[q + (k
            - p.album_pos)] == #[trigger] orig.albums[k] by {
            assert(node.albums[q + (k - p.album_pos)] == orig.albums[k]);
        }
    }
}

/// A page of artist rows taken in leaves what is retained as it is.
proof fn lemma_k_on_page(
    p: Progress,
    c: Stored,
    t: Seq<DiskArtist>,
    c0: Stored,
    rows: Seq<RowKey>,
    has_more: bool,
)
    requires
        inv(p, c, t, c0),
        kept(p, c, t, c0),
        p.awaiting is Page,
        answers(c, pending(p, t), c, Reply::Artists { rows, has_more }),
    ensures
        kept(crate::reconciler::on_page(p, t, rows, has_more).0, c, t, c0),
{
    reveal(crate::reconciler::on_page);
    lemma_ready_page(p, c, t, c0, rows, has_more);
    let mid = after_page(p, rows, has_more);
    assert(artists_kept(mid, c, c0, t, 0));
    lemma_k_resume_artists(mid, c, t, c0);
}

/// The artist row that was deleted did not keep its place, so what is retained stays.
proof fn lemma_k_on_artist_gone(p: Progress, c: Stored, t: Seq<DiskArtist>, c0: Stored, c2: Stored)
    requires
        inv(p, c, t, c0),
        kept(p, c, t, c0),
        p.awaiting is ArtistGone,
        answers(c, pending(p, t), c2, Reply::Done),
        well_kept(c2),
    ensures
        kept(crate::reconciler::on_artist_gone(p, t).0, c2, t, c0),
{
    reveal(crate::reconciler::on_artist_gone);
    lemma_ready_artist_gone(p, c, t, c0, c2);
    let mid = after_artist_gone(p);
    let n = p.kept_artists as int;
    let o = p.rows_passed as int;
    assert(c2.artists.take(n) =~= c.artists.take(n));
    assert forall|k: int| n <= k < c2.artists.len() implies #[trigger] c2.artists[k]
        == c0.artists[o + 1 + (k - n)] by {
        assert(c2.artists[k] == c.artists[k + 1]);
    }
    lemma_seen_passes(
        artist_names(t),
        row_keys(keyed_artists(c0.artists)),
        o,
        p.artist_seen,
    );
    assert(artists_kept(mid, c2, c0, t, 0));
    lemma_k_resume_artists(mid, c2, t, c0);
}

/// The album rows taken in are the albums that the artist under work had before.
proof fn lemma_k_on_albums(p: Progress, c: Stored, t: Seq<DiskArtist>, c0: Stored, rows: Seq<RowKey>)
    requires
        inv(p, c, t, c0),
        kept(p, c, t, c0),
        p.awaiting is Albums,
        answers(c, pending(p, t), c, Reply::Albums { rows }),
    ensures
        kept(crate::reconciler::on_albums(p, t, rows).0, c, t, c0),
{
    reveal(crate::reconciler::on_albums);
    lemma_ready_albums(p, c, t, c0, rows);
    let mid = after_albums(p, t, rows);
    let node = c.artists[p.kept_artists as int];
    let orig = orig_artist(mid, c0);
    assert(node.albums.take(0) =~= Seq::<AlbumRec>::empty());
    assert(artists_kept(mid, c, c0, t, 1));
    assert(albums_kept(mid, node, orig, t[p.artist], 0));
    lemma_k_resume_albums(mid, c, t, c0);
}

/// The album row that was deleted did not keep its place, so what is retained stays.
proof fn lemma_k_on_album_gone(p: Progress, c: Stored, t: Seq<DiskArtist>, c0: Stored, c2: Stored)
    requires
        inv(p, c, t, c0),
        kept(p, c, t, c0),
        p.awaiting is AlbumGone,
        answers(c, pending(p, t), c2, Reply::Done),
        well_kept(c2),
    ensures
        kept(crate::reconciler::on_album_gone(p, t).0, c2, t, c0),
{
    reveal(crate::reconciler::on_album_gone);
    lemma_ready_album_gone(p, c, t, c0, c2);
    let mid = after_album_gone(p);
    let n = p.kept_artists as int;
    let q = p.kept_albums as int;
    let a = p.album_pos;
    let node = c.artists[n];
    let node2 = c2.artists[n];
    let orig = orig_artist(p, c0);
    let d = t[p.artist];
    lemma_k_artist_frame(p, c, c2, c0, t);
    assert(artists_kept(mid, c2, c0, t, 1));
    assert(node2.albums.take(q) =~= node.albums.take(q));
    assert forall|k: int| a + 1 <= k < orig.albums.len() implies node2.albums[q + (k - (a + 1))]
        == #[trigger] orig.albums[k] by {
        assert(node.albums[q + (k - a)] == orig.albums[k]);
    }
    lemma_seen_passes(album_names(d), row_keys(keyed_albums(orig)), a, p.album_seen);
    assert(albums_kept(mid, node2, orig, d, 0));
    lemma_k_resume_albums(mid, c2, t, c0);
}

/// The song rows taken in are the songs that the album under work had before.
proof fn lemma_k_on_songs(p: Progress, c: Stored, t: Seq<DiskArtist>, c0: Stored, rows: Seq<RowKey>)
    requires
        inv(p, c, t, c0),
        kept(p, c, t, c0),
        p.awaiting is Songs,
        answers(c, pending(p, t), c, Reply::Songs { rows }),
    ensures
        kept(crate::reconciler::on_songs(p, t, rows).0, c, t, c0),
{
    reveal(crate::reconciler::on_songs);
    lemma_ready_songs(p, c, t, c0, rows);
    let mid = after_songs(p, t, rows);
    let node = c.artists[p.kept_artists as int];
    let an = node.albums[p.kept_albums as int];
    assert(mid.song_deletes.take(0) =~= Seq::<u128>::empty());
    assert forall|k: int| 0 <= k < an.songs.len() implies an.songs.contains(#[trigger] an.songs[k]) by {}
    assert(artists_kept(mid, c, c0, t, 1));
    assert(orig_artist(mid, c0) == orig_artist(p, c0));
    assert(albums_kept(mid, node, orig_artist(mid, c0), t[p.artist], 1));
    assert(songs_kept(mid, an, orig_album(mid, c0)));
    lemma_k_resume_songs(mid, c, t, c0);
}

/// The song row that was deleted did not keep its place, so what is retained stays.
proof fn lemma_k_on_song_gone(p: Progress, c: Stored, t: Seq<DiskArtist>, c0: Stored, c2: Stored)
    requires
        inv(p, c, t, c0),
        kept(p, c, t, c0),
        p.awaiting is SongGone,
        answers(c, pending(p, t), c2, Reply::Done),
        well_kept(c2),
    ensures
        kept(crate::reconciler::on_song_gone(p, t).0, c2, t, c0),
{
    reveal(crate::reconciler::on_song_gone);
    lemma_ready_song_gone(p, c, t, c0, c2);
    let mid = after_song_gone(p);
    let n = p.kept_artists as int;
    let q = p.kept_albums as int;
    let node = c.artists[n];
    let an = node.albums[q];
    let id = p.song_deletes[p.song_delete_pos];
    let x = choose|x: int|
        song_place(c.artists, n, q, x) && (#[trigger] c.artists[n].albums[q].songs[x]).id == id && c2
            == crate::queries::without_song(c, n, q, x);
    let node2 = c2.artists[n];
    let an2 = node2.albums[q];
    let orig = orig_album(p, c0);
    let gone = p.song_deletes.take(p.song_delete_pos);
    let gone2 = mid.song_deletes.take(mid.song_delete_pos);
    lemma_k_artist_frame(p, c, c2, c0, t);
    lemma_k_album_frame(p, node, node2, orig_artist(p, c0), t[p.artist]);
    assert(gone2 =~= gone.push(id));
    assert forall|k: int|
        0 <= k < orig.songs.len() && !gone2.contains((#[trigger] orig.songs[k]).id) implies an2.songs.contains(
        orig.songs[k],
    ) by {
        if gone.contains(orig.songs[k].id) {
            let z = choose|z: int| 0 <= z < gone.len() && gone[z] == orig.songs[k].id;
            assert(gone2[z] == orig.songs[k].id);
        }
        assert(gone2[gone.len() as int] == id);
        assert(an.songs.contains(orig.songs[k]));
        let w = choose|w: int| 0 <= w < an.songs.len() && an.songs[w] == orig.songs[k];
        let y = if w > x {
            w - 1
        } else {
            w
        };
        assert(an2.songs[y] == an.songs[w]);
    }
    assert(artists_kept(mid, c2, c0, t, 1));
    assert(albums_kept(mid, node2, orig_artist(mid, c0), t[p.artist], 1));
    assert(songs_kept(mid, an2, orig_album(mid, c0)));
    lemma_k_resume_songs(mid, c2, t, c0);
}

/// Storing songs takes nothing away from what is retained.
proof fn lemma_k_on_songs_added(p: Progress, c: Stored, t: Seq<DiskArtist>, c0: Stored, c2: Stored)
    requires
        inv(p, c, t, c0),
        kept(p, c, t, c0),
        p.awaiting is SongsAdded,
        answers(c, pending(p, t), c2, Reply::Done),
        well_kept(c2),
    ensures
        kept(finish_album(p, t).0, c2, t, c0),
{
    lemma_ready_songs_added(p, c, t, c0, c2);
    let n = p.kept_artists as int;
    let q = p.kept_albums as int;
    let node = c.artists[n];
    let an = node.albums[q];
    let node2 = c2.artists[n];
    let an2 = node2.albums[q];
    lemma_k_artist_frame(p, c, c2, c0, t);
    lemma_k_album_frame(p, node, node2, orig_artist(p, c0), t[p.artist]);
    if p.listing {
        lemma_album_retained(p, an, orig_album(p, c0), t[p.artist].albums[p.album], an2);
    }
    lemma_k_finish_album(p, c2, t, c0);
}

/// Storing an album takes nothing away from what is retained.
proof fn lemma_k_on_album_added(
    p: Progress,
    c: Stored,
    t: Seq<DiskArtist>,
    c0: Stored,
    c2: Stored,
    id: u128,
)
    requires
        inv(p, c, t, c0),
        kept(p, c, t, c0),
        p.awaiting is AlbumAdded,
        answers(c, pending(p, t), c2, Reply::Added { id }),
        well_kept(c2),
    ensures
        kept(crate::reconciler::on_album_added(p, t, id).0, c2, t, c0),
{
    reveal(crate::reconciler::on_album_added);
    lemma_ready_album_added(p, c, t, c0, c2, id);
    let mid = after_album_added(p, t, id);
    let n = p.kept_artists as int;
    let q = p.kept_albums as int;
    let node = c.artists[n];
    let node2 = c2.artists[n];
    let an2 = node2.albums[q];
    lemma_k_artist_frame(p, c, c2, c0, t);
    assert(artists_kept(mid, c2, c0, t, 1));
    assert(node2.albums.take(q) =~= node.albums.take(q));
    assert(orig_artist(mid, c0) == orig_artist(p, c0));
    assert(albums_kept(mid, node2, orig_artist(mid, c0), t[p.artist], 1));
    assert(keyed_songs(no_songs()) =~= Seq::<RowKey>::empty());
    assert(songs_kept(mid, an2, orig_album(mid, c0)));
    lemma_k_resume_songs(mid, c2, t, c0);
}

/// Storing an artist takes nothing away from what is retained.
proof fn lemma_k_on_artist_added(
    p: Progress,
    c: Stored,
    t: Seq<DiskArtist>,
    c0: Stored,
    c2: Stored,
    id: u128,
)
    requires
        inv(p, c, t, c0),
        kept(p, c, t, c0),
        p.awaiting is ArtistAdded,
        answers(c, pending(p, t), c2, Reply::Added { id }),
        well_kept(c2),
    ensures
        kept(crate::reconciler::on_artist_added(p, t, id).0, c2, t, c0),
{
    reveal(crate::reconciler::on_artist_added);
    lemma_ready_artist_added(p, c, t, c0, c2, id);
    let mid = after_artist_added(p, t, id);
    let n = p.kept_artists as int;
    let node2 = c2.artists[n];
    assert(c2.artists.take(n) =~= c.artists.take(n));
    assert(artists_kept(mid, c2, c0, t, 1));
    assert(albums_kept(mid, node2, orig_artist(mid, c0), t[p.artist], 0));
    lemma_k_add_albums(mid, c2, t, c0);
}

/// At the start of a run nothing has been passed, and nothing is lost.
pub proof fn lemma_k_begin(c: Stored, t: Seq<DiskArtist>)
    requires
        well_kept(c),
        well_formed(t),
    ensures
        kept(crate::reconciler::begin(t).0, c, t, c),
{
}

/// From one operation to the next, what was stored at the start and keeps its place
/// stays stored.
pub proof fn lemma_k_step(
    p: Progress,
    c: Stored,
    t: Seq<DiskArtist>,
    c0: Stored,
    c2: Stored,
    reply: Reply,
)
    requires
        inv(p, c, t, c0),
        kept(p, c, t, c0),
        !(p.awaiting is Nothing),
        answers(c, pending(p, t), c2, reply),
        well_kept(c2),
        !(reply is Failed),
    ensures
        kept(advance(p, t, reply).0, c2, t, c0),
{
    match p.awaiting {
        Awaiting::Page => {
            lemma_k_on_page(p, c, t, c0, reply->Artists_rows, reply->has_more);
        },
        Awaiting::ArtistGone => {
            lemma_k_on_artist_gone(p, c, t, c0, c2);
        },
        Awaiting::Albums => {
            lemma_k_on_albums(p, c, t, c0, reply->Albums_rows);
        },
        Awaiting::AlbumGone => {
            lemma_k_on_album_gone(p, c, t, c0, c2);
        },
        Awaiting::Songs => {
            lemma_k_on_songs(p, c, t, c0, reply->Songs_rows);
        },
        Awaiting::SongGone => {
            lemma_k_on_song_gone(p, c, t, c0, c2);
        },
        Awaiting::SongsAdded => {
            lemma_k_on_songs_added(p, c, t, c0, c2);
        },
        Awaiting::AlbumAdded => {
            lemma_k_on_album_added(p, c, t, c0, c2, reply->id);
        },
        Awaiting::ArtistAdded => {
            lemma_k_on_artist_added(p, c, t, c0, c2, reply->id);
        },
        Awaiting::Nothing => {},
    }
}

/// An album that is as it was is retained.
proof fn lemma_album_as_it_was(orig: AlbumRec, da: DiskAlbum)
    ensures
        album_retained(orig, orig, da),
{
    assert forall|k: int|
        0 <= k < orig.songs.len() && keeps(song_paths(da), row_keys(keyed_songs(orig)), k) implies orig.songs.contains(
        #[trigger] orig.songs[k],
    ) by {}
}

/// An artist that is as it was is retained.
proof fn lemma_artist_as_it_was(orig: ArtistRec, d: DiskArtist)
    ensures
        artist_retained(orig, orig, d),
{
    assert forall|k: int|
        0 <= k < orig.albums.len() && keeps(album_names(d), row_keys(keyed_albums(orig)), k) implies holds_retained_album(
        #[trigger] orig.albums[k],
        orig.albums,
        d.albums[position(album_names(d), orig.albums[k].name)->0],
    ) by {
        lemma_album_as_it_was(
            orig.albums[k],
            d.albums[position(album_names(d), orig.albums[k].name)->0],
        );
    }
}

/// While its songs are gone through, the album under work, where it was stored before,
/// is retained.
proof fn lemma_album_under_work(p: Progress, c: Stored, t: Seq<DiskArtist>, c0: Stored)
    requires
        inv(p, c, t, c0),
        kept(p, c, t, c0),
        under_album(p.awaiting),
        p.listing,
    ensures
        album_retained(
            orig_artist(p, c0).albums[p.album_pos],
            c.artists[p.kept_artists as int].albums[p.kept_albums as int],
            t[p.artist].albums[p.album],
        ),
{
    let an = c.artists[p.kept_artists as int].albums[p.kept_albums as int];
    let oal = orig_artist(p, c0).albums[p.album_pos];
    let da = t[p.artist].albums[p.album];
    if p.awaiting is Songs {
        lemma_album_as_it_was(oal, da);
    } else {
        let gone = p.song_deletes.take(p.song_delete_pos);
        crate::plan::lemma_stale_upto(p.songs, song_paths(da), p.songs.len() as int);
        assert forall|k: int|
            0 <= k < oal.songs.len() && keeps(song_paths(da), row_keys(keyed_songs(oal)), k) implies an.songs.contains(
            #[trigger] oal.songs[k],
        ) by {
            assert(p.songs[k].id == oal.songs[k].id);
            assert(!p.song_deletes.contains(p.songs[k].id));
            if gone.contains(oal.songs[k].id) {
                let y = choose|y: int| 0 <= y < gone.len() && gone[y] == oal.songs[k].id;
                assert(p.song_deletes[y] == oal.songs[k].id);
            }
        }
    }
}

/// While its albums are gone through, the artist under work, where it was stored before,
/// is retained.
proof fn lemma_artist_under_work(p: Progress, c: Stored, t: Seq<DiskArtist>, c0: Stored)
    requires
        inv(p, c, t, c0),
        kept(p, c, t, c0),
        under_artist(p.awaiting),
        p.scanning,
    ensures
        artist_retained(
            c0.artists[p.rows_passed as int],
            c.artists[p.kept_artists as int],
            t[p.artist],
        ),
{
    let node = c.artists[p.kept_artists as int];
    let orig = c0.artists[p.rows_passed as int];
    let d = t[p.artist];
    let q = p.kept_albums as int;
    let a = p.album_pos;
    if p.awaiting is Albums {
        lemma_artist_as_it_was(orig, d);
    } else {
        let cur = one_if(under_album(p.awaiting));
        let upto = if p.listing {
            a
        } else {
            orig.albums.len() as int
        };
        lemma_albums_retained_grow(orig, node.albums.take(q), node.albums, d, upto);
        assert forall|k: int|
            0 <= k < orig.albums.len() && keeps(album_names(d), row_keys(keyed_albums(orig)), k) implies holds_retained_album(
            #[trigger] orig.albums[k],
            node.albums,
            d.albums[position(album_names(d), orig.albums[k].name)->0],
        ) by {
            let da = d.albums[position(album_names(d), orig.albums[k].name)->0];
            if k >= upto {
                if k == a && cur == 1 {
                    lemma_album_under_work(p, c, t, c0);
                    assert(album_retained(orig.albums[k], node.albums[q], da));
                } else {
                    lemma_album_as_it_was(orig.albums[k], da);
                    assert(node.albums[q + (k - a)] == orig.albums[k]);
                }
            }
        }
    }
}

/// Between any two operations of a run, whatever was stored at its start and keeps its
/// place is still stored.
pub proof fn lemma_kept_retains(p: Progress, c: Stored, t: Seq<DiskArtist>, c0: Stored)
    requires
        inv(p, c, t, c0),
        kept(p, c, t, c0),
    ensures
        retains(c0.artists, c.artists, t),
{
    if !(p.awaiting is Nothing) {
        let n = p.kept_artists as int;
        let o = p.rows_passed as int;
        let cur = one_if(under_artist(p.awaiting));
        lemma_artists_retained_grow(c0.artists, c.artists.take(n), c.artists, t, o);
        assert forall|i: int|
            0 <= i < c0.artists.len() && keeps(
                artist_names(t),
                row_keys(keyed_artists(c0.artists)),
                i,
            ) implies holds_retained_artist(
            #[trigger] c0.artists[i],
            c.artists,
            t[position(artist_names(t), c0.artists[i].name)->0],
        ) by {
            let d = t[position(artist_names(t), c0.artists[i].name)->0];
            if i >= o {
                if i == o && cur == 1 {
                    lemma_artist_under_work(p, c, t, c0);
                    assert(artist_retained(c0.artists[i], c.artists[n], d));
                } else {
                    lemma_artist_as_it_was(c0.artists[i], d);
                    assert(c.artists[n + (i - o)] == c0.artists[i]);
                }
            }
        }
    }
}

} // verus!
