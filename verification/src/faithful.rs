//! What a run writes and what it leaves as it was: a row that was stored before the run
//! is never altered, and a row that the run stores holds what is on disk.

use crate::convergence::{
    inv, lemma_album_at_hand, lemma_ready_album_added, lemma_ready_album_gone,
    lemma_ready_artist_added, lemma_ready_artist_gone, lemma_ready_song_gone,
    lemma_ready_songs_added, pending,
};
use crate::database_sync::answers;
use crate::entities::DiskSong;
use crate::keys::Key;
use crate::plan::row_keys;
use crate::queries::{
    album_place, holds_song, lemma_links_kept, lemma_song_stays, links_kept, song_place,
    well_kept, with_album, with_artist, with_songs, without_album, without_artist, without_song,
    AlbumRec, ArtistRec, PlaylistItem, SongRec, Stored,
};
use crate::reconciler::{Awaiting, Progress, Reply};
use crate::tree::DiskArtist;
use vstd::prelude::*;

verus! {

/// An artist with this identifier and this name was stored before.
pub open spec fn artist_known(before: Seq<ArtistRec>, rec: ArtistRec) -> bool {
    exists|i: int|
        0 <= i < before.len() && (#[trigger] before[i]).id == rec.id && before[i].name == rec.name
}

/// An album with this identifier, name and year was stored before, under the artist
/// with this identifier.
pub open spec fn album_known(before: Seq<ArtistRec>, artist_id: u128, al: AlbumRec) -> bool {
    exists|i: int, y: int|
        album_place(before, i, y) && before[i].id == artist_id && (#[trigger] before[i].albums[y]).id
            == al.id && before[i].albums[y].name == al.name && before[i].albums[y].year == al.year
}

/// This song was stored before as it is, under the album and the artist with these
/// identifiers.
pub open spec fn song_known(
    before: Seq<ArtistRec>,
    artist_id: u128,
    album_id: u128,
    rec: SongRec,
) -> bool {
    exists|i: int, y: int, k: int|
        song_place(before, i, y, k) && before[i].id == artist_id && before[i].albums[y].id
            == album_id && (#[trigger] before[i].albums[y].songs[k]) == rec
}

/// The album of this name under the artist of this name on disk is of this year.
pub open spec fn disk_album_year(t: Seq<DiskArtist>, artist: Key, album: Key, year: i32) -> bool {
    exists|j: int, l: int|
        0 <= j < t.len() && 0 <= l < t[j].albums.len() && t[j].name == artist
            && (#[trigger] t[j].albums[l]).name == album && t[j].albums[l].year == year
}

/// This song is on disk as it is, in the album of this name under the artist of this
/// name.
pub open spec fn disk_song(t: Seq<DiskArtist>, artist: Key, album: Key, song: DiskSong) -> bool {
    exists|j: int, l: int, s: int|
        0 <= j < t.len() && 0 <= l < t[j].albums.len() && 0 <= s < t[j].albums[l].songs.len()
            && t[j].name == artist && t[j].albums[l].name == album
            && (#[trigger] t[j].albums[l].songs[s]) == song
}

/// An artist from before the run is as it was.
pub open spec fn artist_faithful(before: Seq<ArtistRec>, next0: u128, ar: ArtistRec) -> bool {
    ar.id < next0 ==> artist_known(before, ar)
}

/// An album from before the run is as it was, under the artist it was under; an album
/// that the run stored has the year of the album on disk.
pub open spec fn album_faithful(
    before: Seq<ArtistRec>,
    next0: u128,
    t: Seq<DiskArtist>,
    ar: ArtistRec,
    al: AlbumRec,
) -> bool {
    if al.id < next0 {
        album_known(before, ar.id, al)
    } else {
        disk_album_year(t, ar.name, al.name, al.year)
    }
}

/// A song from before the run is as it was, under the album it was under; a song that
/// the run stored is the song on disk.
pub open spec fn song_faithful(
    before: Seq<ArtistRec>,
    next0: u128,
    t: Seq<DiskArtist>,
    ar: ArtistRec,
    al: AlbumRec,
    rec: SongRec,
) -> bool {
    if rec.id < next0 {
        song_known(before, ar.id, al.id, rec)
    } else {
        disk_song(t, ar.name, al.name, rec.song)
    }
}

/// Every stored row is faithful: those from before the run, whose identifiers lie below
/// `next0`, are as they were; those that the run stored hold what is on disk.
pub open spec fn faithful(
    before: Seq<ArtistRec>,
    next0: u128,
    now: Seq<ArtistRec>,
    t: Seq<DiskArtist>,
) -> bool {
    &&& forall|i: int| 0 <= i < now.len() ==> artist_faithful(before, next0, #[trigger] now[i])
    &&& forall|i: int, y: int|
        album_place(now, i, y) ==> album_faithful(before, next0, t, now[i], #[trigger] now[i].albums[y])
    &&& forall|i: int, y: int, k: int|
        song_place(now, i, y, k) ==> song_faithful(
            before,
            next0,
            t,
            now[i],
            now[i].albums[y],
            #[trigger] now[i].albums[y].songs[k],
        )
}

/// A catalog is faithful to itself.
pub proof fn lemma_faithful_begin(c: Stored, t: Seq<DiskArtist>)
    requires
        well_kept(c),
    ensures
        faithful(c.artists, c.next_id, c.artists, t),
{
}

/// Taking out an artist leaves the rest faithful.
proof fn lemma_faithful_without_artist(
    before: Seq<ArtistRec>,
    next0: u128,
    c: Stored,
    i: int,
    t: Seq<DiskArtist>,
)
    requires
        faithful(before, next0, c.artists, t),
        0 <= i < c.artists.len(),
    ensures
        faithful(before, next0, without_artist(c, i).artists, t),
{
    let now = without_artist(c, i).artists;
    assert forall|x: int| 0 <= x < now.len() implies ({
        let w = if x >= i {
            x + 1
        } else {
            x
        };
        0 <= w < c.artists.len() && (#[trigger] now[x]) == c.artists[w]
    }) by {}
    assert forall|x: int, y: int| album_place(now, x, y) implies album_faithful(
        before,
        next0,
        t,
        now[x],
        #[trigger] now[x].albums[y],
    ) by {
        let w = if x >= i {
            x + 1
        } else {
            x
        };
        assert(now[x] == c.artists[w]);
        assert(album_place(c.artists, w, y));
    }
    assert forall|x: int, y: int, k: int| song_place(now, x, y, k) implies song_faithful(
        before,
        next0,
        t,
        now[x],
        now[x].albums[y],
        #[trigger] now[x].albums[y].songs[k],
    ) by {
        let w = if x >= i {
            x + 1
        } else {
            x
        };
        assert(now[x] == c.artists[w]);
        assert(song_place(c.artists, w, y, k));
    }
}

/// Taking out an album leaves the rest faithful.
proof fn lemma_faithful_without_album(
    before: Seq<ArtistRec>,
    next0: u128,
    c: Stored,
    i: int,
    j: int,
    t: Seq<DiskArtist>,
)
    requires
        faithful(before, next0, c.artists, t),
        album_place(c.artists, i, j),
    ensures
        faithful(before, next0, without_album(c, i, j).artists, t),
{
    let now = without_album(c, i, j).artists;
    assert forall|x: int| 0 <= x < now.len() implies artist_faithful(before, next0, #[trigger] now[x]) by {
        assert(artist_faithful(before, next0, c.artists[x]));
    }
    assert forall|x: int, y: int| album_place(now, x, y) implies album_faithful(
        before,
        next0,
        t,
        now[x],
        #[trigger] now[x].albums[y],
    ) by {
        let w = if x == i && y >= j {
            y + 1
        } else {
            y
        };
        assert(album_place(c.artists, x, w));
        assert(now[x].albums[y] == c.artists[x].albums[w]);
        assert(album_faithful(before, next0, t, c.artists[x], c.artists[x].albums[w]));
    }
    assert forall|x: int, y: int, k: int| song_place(now, x, y, k) implies song_faithful(
        before,
        next0,
        t,
        now[x],
        now[x].albums[y],
        #[trigger] now[x].albums[y].songs[k],
    ) by {
        let w = if x == i && y >= j {
            y + 1
        } else {
            y
        };
        assert(album_place(c.artists, x, w));
        assert(now[x].albums[y] == c.artists[x].albums[w]);
        assert(song_place(c.artists, x, w, k));
        assert(song_faithful(
            before,
            next0,
            t,
            c.artists[x],
            c.artists[x].albums[w],
            c.artists[x].albums[w].songs[k],
        ));
    }
}

/// Taking out a song leaves the rest faithful.
proof fn lemma_faithful_without_song(
    before: Seq<ArtistRec>,
    next0: u128,
    c: Stored,
    i: int,
    j: int,
    r: int,
    t: Seq<DiskArtist>,
)
    requires
        faithful(before, next0, c.artists, t),
        song_place(c.artists, i, j, r),
    ensures
        faithful(before, next0, without_song(c, i, j, r).artists, t),
{
    let now = without_song(c, i, j, r).artists;
    assert forall|x: int| 0 <= x < now.len() implies artist_faithful(before, next0, #[trigger] now[x]) by {
        assert(artist_faithful(before, next0, c.artists[x]));
    }
    assert forall|x: int, y: int| album_place(now, x, y) implies album_faithful(
        before,
        next0,
        t,
        now[x],
        #[trigger] now[x].albums[y],
    ) by {
        assert(album_place(c.artists, x, y));
        assert(album_faithful(before, next0, t, c.artists[x], c.artists[x].albums[y]));
    }
    assert forall|x: int, y: int, k: int| song_place(now, x, y, k) implies song_faithful(
        before,
        next0,
        t,
        now[x],
        now[x].albums[y],
        #[trigger] now[x].albums[y].songs[k],
    ) by {
        let w = if x == i && y == j && k >= r {
            k + 1
        } else {
            k
        };
        assert(album_place(c.artists, x, y));
        assert(song_place(c.artists, x, y, w));
        assert(now[x].albums[y].songs[k] == c.artists[x].albums[y].songs[w]);
        assert(song_faithful(
            before,
            next0,
            t,
            c.artists[x],
            c.artists[x].albums[y],
            c.artists[x].albums[y].songs[w],
        ));
    }
}

/// A new artist, under a fresh identifier, leaves the catalog faithful.
proof fn lemma_faithful_with_artist(
    before: Seq<ArtistRec>,
    next0: u128,
    c: Stored,
    name: Key,
    t: Seq<DiskArtist>,
)
    requires
        faithful(before, next0, c.artists, t),
        next0 <= c.next_id,
    ensures
        faithful(before, next0, with_artist(c, name).artists, t),
{
    let now = with_artist(c, name).artists;
    let last = c.artists.len() as int;
    assert forall|x: int| 0 <= x < now.len() implies artist_faithful(before, next0, #[trigger] now[x]) by {
        if x < last {
            assert(now[x] == c.artists[x]);
        }
    }
    assert forall|x: int, y: int| album_place(now, x, y) implies album_faithful(
        before,
        next0,
        t,
        now[x],
        #[trigger] now[x].albums[y],
    ) by {
        assert(now[x] == c.artists[x]);
        assert(album_place(c.artists, x, y));
    }
    assert forall|x: int, y: int, k: int| song_place(now, x, y, k) implies song_faithful(
        before,
        next0,
        t,
        now[x],
        now[x].albums[y],
        #[trigger] now[x].albums[y].songs[k],
    ) by {
        assert(now[x] == c.artists[x]);
        assert(song_place(c.artists, x, y, k));
    }
}

/// A new album of the year on disk, under a fresh identifier, leaves the catalog faithful.
proof fn lemma_faithful_with_album(
    before: Seq<ArtistRec>,
    next0: u128,
    c: Stored,
    i: int,
    name: Key,
    year: i32,
    t: Seq<DiskArtist>,
)
    requires
        faithful(before, next0, c.artists, t),
        next0 <= c.next_id,
        0 <= i < c.artists.len(),
        disk_album_year(t, c.artists[i].name, name, year),
    ensures
        faithful(before, next0, with_album(c, i, name, year).artists, t),
{
    let now = with_album(c, i, name, year).artists;
    let last = c.artists[i].albums.len() as int;
    assert forall|x: int| 0 <= x < now.len() implies artist_faithful(before, next0, #[trigger] now[x]) by {
        assert(artist_faithful(before, next0, c.artists[x]));
    }
    assert forall|x: int, y: int| album_place(now, x, y) implies album_faithful(
        before,
        next0,
        t,
        now[x],
        #[trigger] now[x].albums[y],
    ) by {
        if !(x == i && y == last) {
            assert(album_place(c.artists, x, y));
            assert(now[x].albums[y] == c.artists[x].albums[y]);
            assert(album_faithful(before, next0, t, c.artists[x], c.artists[x].albums[y]));
        }
    }
    assert forall|x: int, y: int, k: int| song_place(now, x, y, k) implies song_faithful(
        before,
        next0,
        t,
        now[x],
        now[x].albums[y],
        #[trigger] now[x].albums[y].songs[k],
    ) by {
        assert(album_place(c.artists, x, y));
        assert(now[x].albums[y] == c.artists[x].albums[y]);
        assert(song_place(c.artists, x, y, k));
        assert(song_faithful(
            before,
            next0,
            t,
            c.artists[x],
            c.artists[x].albums[y],
            c.artists[x].albums[y].songs[k],
        ));
    }
}

/// New songs that are on disk, under fresh identifiers, leave the catalog faithful.
proof fn lemma_faithful_with_songs(
    before: Seq<ArtistRec>,
    next0: u128,
    c: Stored,
    i: int,
    j: int,
    songs: Seq<DiskSong>,
    t: Seq<DiskArtist>,
)
    requires
        faithful(before, next0, c.artists, t),
        next0 <= c.next_id,
        c.next_id + songs.len() <= u128::MAX,
        album_place(c.artists, i, j),
        forall|n: int|
            0 <= n < songs.len() ==> disk_song(
                t,
                c.artists[i].name,
                c.artists[i].albums[j].name,
                #[trigger] songs[n],
            ),
    ensures
        faithful(before, next0, with_songs(c, i, j, songs).artists, t),
{
    let now = with_songs(c, i, j, songs).artists;
    let old_len = c.artists[i].albums[j].songs.len() as int;
    assert forall|x: int| 0 <= x < now.len() implies artist_faithful(before, next0, #[trigger] now[x]) by {
        assert(artist_faithful(before, next0, c.artists[x]));
    }
    assert forall|x: int, y: int| album_place(now, x, y) implies album_faithful(
        before,
        next0,
        t,
        now[x],
        #[trigger] now[x].albums[y],
    ) by {
        assert(album_place(c.artists, x, y));
        assert(album_faithful(before, next0, t, c.artists[x], c.artists[x].albums[y]));
    }
    assert forall|x: int, y: int, k: int| song_place(now, x, y, k) implies song_faithful(
        before,
        next0,
        t,
        now[x],
        now[x].albums[y],
        #[trigger] now[x].albums[y].songs[k],
    ) by {
        assert(album_place(c.artists, x, y));
        if x == i && y == j && k >= old_len {
            assert(now[x].albums[y].songs[k].song == songs[k - old_len]);
            assert(now[x].albums[y].songs[k].id == c.next_id + (k - old_len));
        } else {
            assert(song_place(c.artists, x, y, k));
            assert(now[x].albums[y].songs[k] == c.artists[x].albums[y].songs[k]);
            assert(song_faithful(
                before,
                next0,
                t,
                c.artists[x],
                c.artists[x].albums[y],
                c.artists[x].albums[y].songs[k],
            ));
        }
    }
}

/// While an album is about to be stored, the artist under work is stored under the name
/// of its artist on disk, which has the album.
proof fn lemma_album_name_on_disk(p: Progress, c: Stored, t: Seq<DiskArtist>)
    requires
        exists|c0: Stored| inv(p, c, t, c0),
        p.awaiting is AlbumAdded,
    ensures
        0 <= p.kept_artists < c.artists.len(),
        disk_album_year(
            t,
            c.artists[p.kept_artists as int].name,
            t[p.artist].albums[p.album].name,
            t[p.artist].albums[p.album].year,
        ),
{
    let c0 = choose|c0: Stored| inv(p, c, t, c0);
    assert(inv(p, c, t, c0));
    let node = c.artists[p.kept_artists as int];
    crate::keys::lemma_position(crate::tree::artist_names(t), node.name);
    assert(t[p.artist].name == node.name);
    assert(t[p.artist].albums[p.album].name == t[p.artist].albums[p.album].name);
}

/// From one operation to the next the catalog stays faithful, and the next identifier
/// does not fall.
pub proof fn lemma_faithful_step(
    p: Progress,
    c: Stored,
    t: Seq<DiskArtist>,
    c0: Stored,
    c2: Stored,
    reply: Reply,
)
    requires
        inv(p, c, t, c0),
        faithful(c0.artists, c0.next_id, c.artists, t),
        c0.next_id <= c.next_id,
        !(p.awaiting is Nothing),
        answers(c, pending(p, t), c2, reply),
        well_kept(c2),
        !(reply is Failed),
    ensures
        faithful(c0.artists, c0.next_id, c2.artists, t),
        c0.next_id <= c2.next_id,
{
    let n = p.kept_artists as int;
    let q = p.kept_albums as int;
    match p.awaiting {
        Awaiting::ArtistGone => {
            lemma_ready_artist_gone(p, c, t, c0, c2);
            lemma_faithful_without_artist(c0.artists, c0.next_id, c, n, t);
        },
        Awaiting::AlbumGone => {
            lemma_ready_album_gone(p, c, t, c0, c2);
            lemma_faithful_without_album(c0.artists, c0.next_id, c, n, q, t);
        },
        Awaiting::SongGone => {
            lemma_ready_song_gone(p, c, t, c0, c2);
            let x = choose|x: int|
                song_place(c.artists, n, q, x) && (#[trigger] c.artists[n].albums[q].songs[x]).id
                    == p.song_deletes[p.song_delete_pos] && c2 == without_song(c, n, q, x);
            lemma_faithful_without_song(c0.artists, c0.next_id, c, n, q, x, t);
        },
        Awaiting::SongsAdded => {
            lemma_ready_songs_added(p, c, t, c0, c2);
            lemma_album_at_hand(p, c, t);
            let da = t[p.artist].albums[p.album];
            crate::plan::lemma_missing_upto(da.songs, row_keys(p.songs), da.songs.len() as int);
            assert forall|y: int| 0 <= y < p.song_adds.len() implies disk_song(
                t,
                c.artists[n].name,
                c.artists[n].albums[q].name,
                #[trigger] p.song_adds[y],
            ) by {
                assert(crate::plan::lacks_row(
                    da.songs,
                    row_keys(p.songs),
                    da.songs.len() as int,
                    p.song_adds[y],
                ));
                let s = choose|s: int|
                    0 <= s < da.songs.len() && crate::keys::position(
                        row_keys(p.songs),
                        da.songs[s].path,
                    ) is None && (#[trigger] da.songs[s]) == p.song_adds[y];
                assert(t[p.artist].albums[p.album].songs[s] == p.song_adds[y]);
            }
            lemma_faithful_with_songs(c0.artists, c0.next_id, c, n, q, p.song_adds, t);
        },
        Awaiting::AlbumAdded => {
            lemma_ready_album_added(p, c, t, c0, c2, reply->id);
            lemma_album_name_on_disk(p, c, t);
            let da = t[p.artist].albums[p.album];
            lemma_faithful_with_album(c0.artists, c0.next_id, c, n, da.name, da.year, t);
        },
        Awaiting::ArtistAdded => {
            lemma_ready_artist_added(p, c, t, c0, c2, reply->id);
            lemma_faithful_with_artist(c0.artists, c0.next_id, c, t[p.artist].name, t);
        },
        _ => {},
    }
}

/// The playlist items are those of before whose song is still stored, in their order.
pub open spec fn links_follow(c0: Stored, c: Stored) -> bool {
    c.links == links_kept(c0.links, c.artists)
}

/// Every playlist item of a catalog that keeps its rules has its song stored.
pub proof fn lemma_links_begin(c: Stored)
    requires
        well_kept(c),
    ensures
        links_follow(c, c),
{
    lemma_links_kept(c.links, c.artists);
}

/// Keeping the items whose song is stored among some artists, and of those the items
/// whose song is stored among artists that hold no other songs, is keeping the items
/// whose song is stored among the latter.
proof fn lemma_links_kept_again(links: Seq<PlaylistItem>, a1: Seq<ArtistRec>, a2: Seq<ArtistRec>)
    requires
        forall|id: u128| #[trigger] holds_song(a2, id) ==> holds_song(a1, id),
    ensures
        links_kept(links_kept(links, a1), a2) == links_kept(links, a2),
    decreases links.len(),
{
    if links.len() > 0 {
        let head = links.drop_last();
        let last = links.last();
        lemma_links_kept_again(head, a1, a2);
        if holds_song(a1, last.song_id) {
            let inner = links_kept(head, a1).push(last);
            assert(inner.drop_last() =~= links_kept(head, a1));
            assert(inner.last() == last);
        } else {
            assert(!holds_song(a2, last.song_id));
        }
    }
}

/// Where each item's song is stored among some artists exactly where it is stored among
/// others, the same items are kept.
proof fn lemma_links_kept_same(links: Seq<PlaylistItem>, a1: Seq<ArtistRec>, a2: Seq<ArtistRec>)
    requires
        forall|n: int|
            0 <= n < links.len() ==> (holds_song(a1, (#[trigger] links[n]).song_id) <==> holds_song(
                a2,
                links[n].song_id,
            )),
    ensures
        links_kept(links, a1) == links_kept(links, a2),
    decreases links.len(),
{
    if links.len() > 0 {
        let head = links.drop_last();
        assert forall|n: int| 0 <= n < head.len() implies (holds_song(
            a1,
            (#[trigger] head[n]).song_id,
        ) <==> holds_song(a2, head[n].song_id)) by {
            assert(head[n] == links[n]);
        }
        lemma_links_kept_same(head, a1, a2);
        assert(links.last() == links[links.len() - 1]);
    }
}

/// A song that is stored after a row was taken out was stored before.
proof fn lemma_survivors(c: Stored, c2: Stored, i: int, j: int, k: int)
    requires
        0 <= i < c.artists.len(),
        c2 == without_artist(c, i) || (album_place(c.artists, i, j) && c2 == without_album(
            c,
            i,
            j,
        )) || (song_place(c.artists, i, j, k) && c2 == without_song(c, i, j, k)),
    ensures
        forall|id: u128| #[trigger] holds_song(c2.artists, id) ==> holds_song(c.artists, id),
{
    assert forall|id: u128| #[trigger] holds_song(c2.artists, id) implies holds_song(
        c.artists,
        id,
    ) by {
        let (x, y, z) = choose|x: int, y: int, z: int|
            song_place(c2.artists, x, y, z) && (#[trigger] c2.artists[x].albums[y].songs[z]).id
                == id;
        if c2 == without_artist(c, i) {
            let w = if x >= i {
                x + 1
            } else {
                x
            };
            assert(c2.artists[x] == c.artists[w]);
            assert(song_place(c.artists, w, y, z) && c.artists[w].albums[y].songs[z].id == id);
        } else if album_place(c.artists, i, j) && c2 == without_album(c, i, j) {
            let w = if x == i && y >= j {
                y + 1
            } else {
                y
            };
            assert(c2.artists[x].albums[y] == c.artists[x].albums[w]);
            assert(song_place(c.artists, x, w, z) && c.artists[x].albums[w].songs[z].id == id);
        } else {
            let w = if x == i && y == j && z >= k {
                z + 1
            } else {
                z
            };
            assert(album_place(c.artists, x, y));
            assert(c2.artists[x].albums[y].songs[z] == c.artists[x].albums[y].songs[w]);
            assert(song_place(c.artists, x, y, w) && c.artists[x].albums[y].songs[w].id == id);
        }
    }
}

/// A song that is stored after rows were added was stored before, or has an identifier
/// that was handed out since.
proof fn lemma_newcomers(c: Stored, c2: Stored, i: int, j: int, name: Key, year: i32, songs: Seq<DiskSong>)
    requires
        well_kept(c),
        c2 == with_artist(c, name) || (0 <= i < c.artists.len() && c2 == with_album(
            c,
            i,
            name,
            year,
        )) || (album_place(c.artists, i, j) && c.next_id + songs.len() <= u128::MAX && c2
            == with_songs(c, i, j, songs)),
    ensures
        forall|id: u128| holds_song(c.artists, id) ==> #[trigger] holds_song(c2.artists, id),
        forall|id: u128|
            #[trigger] holds_song(c2.artists, id) ==> holds_song(c.artists, id) || id >= c.next_id,
{
    assert forall|id: u128| holds_song(c.artists, id) implies #[trigger] holds_song(
        c2.artists,
        id,
    ) by {
        assert forall|x: int, y: int, z: int| song_place(c.artists, x, y, z) implies song_place(
            c2.artists,
            x,
            y,
            z,
        ) && c.artists[x].albums[y].songs[z].id == (#[trigger] c2.artists[x].albums[y].songs[z]).id by {
            assert(album_place(c.artists, x, y));
        }
        let (x, y, z) = choose|x: int, y: int, z: int|
            song_place(c.artists, x, y, z) && (#[trigger] c.artists[x].albums[y].songs[z]).id == id;
        assert(song_place(c2.artists, x, y, z) && c2.artists[x].albums[y].songs[z].id == id);
    }
    assert forall|id: u128| #[trigger] holds_song(c2.artists, id) implies holds_song(
        c.artists,
        id,
    ) || id >= c.next_id by {
        let (x, y, z) = choose|x: int, y: int, z: int|
            song_place(c2.artists, x, y, z) && (#[trigger] c2.artists[x].albums[y].songs[z]).id
                == id;
        if c2 == with_artist(c, name) {
            assert(x < c.artists.len());
            assert(c2.artists[x] == c.artists[x]);
            assert(song_place(c.artists, x, y, z) && c.artists[x].albums[y].songs[z].id == id);
        } else if 0 <= i < c.artists.len() && c2 == with_album(c, i, name, year) {
            assert(!(x == i && y == c.artists[i].albums.len()));
            assert(album_place(c.artists, x, y));
            assert(c2.artists[x].albums[y] == c.artists[x].albums[y]);
            assert(song_place(c.artists, x, y, z) && c.artists[x].albums[y].songs[z].id == id);
        } else {
            assert(album_place(c.artists, x, y));
            let old_len = c.artists[i].albums[j].songs.len() as int;
            if x == i && y == j && z >= old_len {
                assert(c2.artists[x].albums[y].songs[z].id == c.next_id + (z - old_len));
            } else {
                assert(c2.artists[x].albums[y].songs[z] == c.artists[x].albums[y].songs[z]);
                assert(song_place(c.artists, x, y, z) && c.artists[x].albums[y].songs[z].id == id);
            }
        }
    }
}

/// From one operation to the next, the playlist items stay those of before whose song is
/// still stored.
pub proof fn lemma_links_step(
    p: Progress,
    c: Stored,
    t: Seq<DiskArtist>,
    c0: Stored,
    c2: Stored,
    reply: Reply,
)
    requires
        inv(p, c, t, c0),
        well_kept(c0),
        c0.next_id <= c.next_id,
        links_follow(c0, c),
        !(p.awaiting is Nothing),
        answers(c, pending(p, t), c2, reply),
        well_kept(c2),
        !(reply is Failed),
    ensures
        links_follow(c0, c2),
{
    let n = p.kept_artists as int;
    let q = p.kept_albums as int;
    let da = t[p.artist].albums[p.album];
    match p.awaiting {
        Awaiting::ArtistGone => {
            lemma_ready_artist_gone(p, c, t, c0, c2);
            lemma_survivors(c, c2, n, 0, 0);
            lemma_links_kept_again(c0.links, c.artists, c2.artists);
        },
        Awaiting::AlbumGone => {
            lemma_ready_album_gone(p, c, t, c0, c2);
            lemma_survivors(c, c2, n, q, 0);
            lemma_links_kept_again(c0.links, c.artists, c2.artists);
        },
        Awaiting::SongGone => {
            lemma_ready_song_gone(p, c, t, c0, c2);
            let x = choose|x: int|
                song_place(c.artists, n, q, x) && (#[trigger] c.artists[n].albums[q].songs[x]).id
                    == p.song_deletes[p.song_delete_pos] && c2 == without_song(c, n, q, x);
            lemma_survivors(c, c2, n, q, x);
            lemma_links_kept_again(c0.links, c.artists, c2.artists);
        },
        Awaiting::SongsAdded => {
            lemma_ready_songs_added(p, c, t, c0, c2);
            lemma_album_at_hand(p, c, t);
            lemma_newcomers(c, c2, n, q, Seq::empty(), 0, p.song_adds);
            lemma_links_unmoved(c0, c, c2);
        },
        Awaiting::AlbumAdded => {
            lemma_ready_album_added(p, c, t, c0, c2, reply->id);
            lemma_newcomers(c, c2, n, 0, da.name, da.year, Seq::empty());
            lemma_links_unmoved(c0, c, c2);
        },
        Awaiting::ArtistAdded => {
            lemma_ready_artist_added(p, c, t, c0, c2, reply->id);
            lemma_newcomers(c, c2, 0, 0, t[p.artist].name, 0, Seq::empty());
            lemma_links_unmoved(c0, c, c2);
        },
        _ => {},
    }
}

/// Rows that are added under identifiers handed out since leave the playlist items of
/// before as they are kept.
proof fn lemma_links_unmoved(c0: Stored, c: Stored, c2: Stored)
    requires
        well_kept(c0),
        c0.next_id <= c.next_id,
        links_follow(c0, c),
        c2.links == c.links,
        forall|id: u128| holds_song(c.artists, id) ==> #[trigger] holds_song(c2.artists, id),
        forall|id: u128|
            #[trigger] holds_song(c2.artists, id) ==> holds_song(c.artists, id) || id >= c.next_id,
    ensures
        links_follow(c0, c2),
{
    assert forall|n: int| 0 <= n < c0.links.len() implies (holds_song(
        c.artists,
        (#[trigger] c0.links[n]).song_id,
    ) <==> holds_song(c2.artists, c0.links[n].song_id)) by {
        let id = c0.links[n].song_id;
        assert(holds_song(c0.artists, id));
        let (x, y, z) = choose|x: int, y: int, z: int|
            song_place(c0.artists, x, y, z) && (#[trigger] c0.artists[x].albums[y].songs[z]).id
                == id;
        assert(id < c0.next_id);
    }
    lemma_links_kept_same(c0.links, c.artists, c2.artists);
}

} // verus!
