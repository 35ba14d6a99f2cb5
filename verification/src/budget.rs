//! How many identifiers a run can need at most: one for each artist, album and song on
//! disk for which none is stored yet. A run on a catalog with that many identifiers
//! left never fails.

use crate::convergence::{at_albums, at_songs, inv, lemma_album_at_hand, pending};
use crate::database_sync::answers;
use crate::plan::{missing, missing_upto, row_keys};
use crate::queries::{holds_album, holds_artist, well_kept, Stored};
use crate::reconciler::{
    add_albums, add_artists, advance, after_album_added, after_album_gone, after_albums,
    after_artist_added, after_artist_gone, after_page, after_song_gone, after_songs,
    finish_album, finish_artist, resume_albums, resume_artists, resume_songs, Awaiting, Progress,
    Reply,
};
use crate::tree::{DiskAlbum, DiskArtist};
use vstd::prelude::*;

verus! {

/// The sum of the first `n` weights whose place is not marked as seen.
pub open spec fn unseen_sum(weights: Seq<nat>, seen: Seq<bool>, n: int) -> nat
    decreases n,
{
    if n <= 0 {
        0
    } else {
        unseen_sum(weights, seen, n - 1) + if seen[n - 1] {
            0nat
        } else {
            weights[n - 1]
        }
    }
}

/// `n` flags of which none holds.
pub open spec fn none_seen(n: nat) -> Seq<bool> {
    Seq::new(n, |l: int| false)
}

/// The rows that each album of an artist on disk stands for: itself and its songs.
pub open spec fn album_weights(d: DiskArtist) -> Seq<nat> {
    Seq::new(d.albums.len(), |l: int| 1 + d.albums[l].songs.len())
}

/// The rows that an artist on disk stands for: itself, its albums and their songs.
pub open spec fn artist_rows(d: DiskArtist) -> nat {
    1 + unseen_sum(album_weights(d), none_seen(d.albums.len()), d.albums.len() as int)
}

/// The rows that each artist on disk stands for.
pub open spec fn artist_weights(t: Seq<DiskArtist>) -> Seq<nat> {
    Seq::new(t.len(), |j: int| artist_rows(t[j]))
}

/// The rows that the tree on disk stands for: its artists, their albums and their songs.
pub open spec fn tree_rows(t: Seq<DiskArtist>) -> nat {
    unseen_sum(artist_weights(t), none_seen(t.len()), t.len() as int)
}

/// Marking a place that was not marked takes its weight out of the sum.
pub proof fn lemma_unseen_sum_mark(weights: Seq<nat>, seen: Seq<bool>, n: int, j: int)
    requires
        0 <= n <= weights.len(),
        seen.len() == weights.len(),
        0 <= j < seen.len(),
        !seen[j],
    ensures
        unseen_sum(weights, seen, n) == unseen_sum(weights, seen.update(j, true), n) + if j < n {
            weights[j]
        } else {
            0nat
        },
    decreases n,
{
    if n > 0 {
        lemma_unseen_sum_mark(weights, seen, n - 1, j);
    }
}

/// As many songs as are to be inserted at most as there are on disk.
pub proof fn lemma_missing_len(songs: Seq<crate::entities::DiskSong>, rows: Seq<crate::keys::Key>, n: int)
    requires
        0 <= n <= songs.len(),
    ensures
        missing_upto(songs, rows, n).len() <= n,
    decreases n,
{
    if n > 0 {
        lemma_missing_len(songs, rows, n - 1);
    }
}

/// The identifiers that the artists not yet seen can still need.
pub open spec fn artists_pending(p: Progress, t: Seq<DiskArtist>) -> nat {
    unseen_sum(artist_weights(t), p.artist_seen, t.len() as int)
}

/// The identifiers that the albums not yet seen of the artist under work can still need.
pub open spec fn albums_pending(p: Progress, t: Seq<DiskArtist>) -> nat {
    unseen_sum(album_weights(t[p.artist]), p.album_seen, t[p.artist].albums.len() as int)
}

/// The identifiers that the run can still need, counted from what the machine waits
/// for.
pub open spec fn pending_rows(p: Progress, t: Seq<DiskArtist>) -> int {
    artists_pending(p, t) + (if p.awaiting is Albums {
        artist_rows(t[p.artist]) - 1
    } else if at_albums(p.awaiting) {
        albums_pending(p, t) as int
    } else {
        0
    }) + (if p.awaiting is Songs {
        t[p.artist].albums[p.album].songs.len() as int
    } else if at_songs(p.awaiting) {
        p.song_adds.len() as int
    } else {
        0
    })
}

/// The identifiers handed out so far and those that the run can still need are no more
/// than the tree stands for.
pub open spec fn within_budget(p: Progress, c: Stored, t: Seq<DiskArtist>, c0: Stored) -> bool {
    p.awaiting is Nothing || c.next_id + pending_rows(p, t) <= c0.next_id + tree_rows(t)
}

/// Going on with the artists still to be added stays within the budget.
proof fn lemma_b_add_artists(p: Progress, c: Stored, t: Seq<DiskArtist>, c0: Stored, limit: int)
    requires
        c.next_id + artists_pending(p, t) <= limit,
    ensures
        add_artists(p, t).0.awaiting is Nothing || c.next_id + pending_rows(add_artists(p, t).0, t)
            <= limit,
{
    reveal(add_artists);
}

/// Going on with the stored artists at the cursor stays within the budget.
proof fn lemma_b_resume_artists(p: Progress, c: Stored, t: Seq<DiskArtist>, c0: Stored, limit: int)
    requires
        crate::reconciler::artists_in_range(p, t),
        c.next_id + artists_pending(p, t) <= limit,
    ensures
        resume_artists(p, t).0.awaiting is Nothing || c.next_id + pending_rows(
            resume_artists(p, t).0,
            t,
        ) <= limit,
{
    reveal(resume_artists);
    let q = resume_artists(p, t).0;
    if !p.scanning {
        lemma_b_add_artists(p, c, t, c0, limit);
    } else if 0 <= p.page_pos < p.page.len() {
        let row = p.page[p.page_pos];
        crate::keys::lemma_position(crate::tree::artist_names(t), row.key);
        match crate::keys::position(crate::tree::artist_names(t), row.key) {
            Some(j) => {
                if !p.artist_seen[j] {
                    lemma_unseen_sum_mark(artist_weights(t), p.artist_seen, t.len() as int, j);
                }
            },
            None => {},
        }
    } else if p.more_pages {
    } else {
        let mid = Progress {
            scanning: false,
            new_artists: crate::keys::unseen(p.artist_seen),
            new_artist_pos: 0,
            ..p
        };
        lemma_b_add_artists(mid, c, t, c0, limit);
    }
}

/// Leaving the artist under work stays within the budget.
proof fn lemma_b_finish_artist(p: Progress, c: Stored, t: Seq<DiskArtist>, c0: Stored, limit: int)
    requires
        crate::reconciler::artist_in_range(p, t),
        c.next_id + artists_pending(p, t) <= limit,
    ensures
        finish_artist(p, t).0.awaiting is Nothing || c.next_id + pending_rows(
            finish_artist(p, t).0,
            t,
        ) <= limit,
{
    reveal(finish_artist);
    let mid = if p.scanning {
        Progress {
            page_pos: p.page_pos + 1,
            passed: Some(p.artist_id),
            kept_artists: p.kept_artists + 1,
            rows_passed: p.rows_passed + 1,
            ..p
        }
    } else {
        Progress { new_artist_pos: p.new_artist_pos + 1, kept_artists: p.kept_artists + 1, ..p }
    };
    lemma_b_resume_artists(mid, c, t, c0, limit);
}

/// Going on with the albums still to be added stays within the budget.
proof fn lemma_b_add_albums(p: Progress, c: Stored, t: Seq<DiskArtist>, c0: Stored, limit: int)
    requires
        crate::reconciler::albums_in_range(p, t),
        !p.listing,
        c.next_id + artists_pending(p, t) + albums_pending(p, t) <= limit,
    ensures
        add_albums(p, t).0.awaiting is Nothing || c.next_id + pending_rows(add_albums(p, t).0, t)
            <= limit,
{
    reveal(add_albums);
    if !(0 <= p.new_album_pos < p.new_albums.len()) {
        lemma_b_finish_artist(p, c, t, c0, limit);
    }
}

/// Going on with the stored albums at the cursor stays within the budget.
proof fn lemma_b_resume_albums(p: Progress, c: Stored, t: Seq<DiskArtist>, c0: Stored, limit: int)
    requires
        crate::reconciler::albums_in_range(p, t),
        c.next_id + artists_pending(p, t) + albums_pending(p, t) <= limit,
    ensures
        resume_albums(p, t).0.awaiting is Nothing || c.next_id + pending_rows(
            resume_albums(p, t).0,
            t,
        ) <= limit,
{
    reveal(resume_albums);
    let d = t[p.artist];
    if !p.listing {
        lemma_b_add_albums(p, c, t, c0, limit);
    } else if 0 <= p.album_pos < p.albums.len() {
        let row = p.albums[p.album_pos];
        crate::keys::lemma_position(crate::tree::album_names(d), row.key);
        match crate::keys::position(crate::tree::album_names(d), row.key) {
            Some(l) => {
                if !p.album_seen[l] {
                    lemma_unseen_sum_mark(album_weights(d), p.album_seen, d.albums.len() as int, l);
                }
            },
            None => {},
        }
    } else {
        let mid = Progress {
            listing: false,
            new_albums: crate::keys::unseen(p.album_seen),
            new_album_pos: 0,
            ..p
        };
        crate::keys::lemma_unseen(p.album_seen);
        lemma_b_add_albums(mid, c, t, c0, limit);
    }
}

/// Leaving the album under work stays within the budget.
proof fn lemma_b_finish_album(p: Progress, c: Stored, t: Seq<DiskArtist>, c0: Stored, limit: int)
    requires
        crate::reconciler::album_in_range(p, t),
        c.next_id + artists_pending(p, t) + albums_pending(p, t) <= limit,
    ensures
        finish_album(p, t).0.awaiting is Nothing || c.next_id + pending_rows(
            finish_album(p, t).0,
            t,
        ) <= limit,
{
    reveal(finish_album);
    let mid = if p.listing {
        Progress { album_pos: p.album_pos + 1, kept_albums: p.kept_albums + 1, ..p }
    } else {
        Progress { new_album_pos: p.new_album_pos + 1, kept_albums: p.kept_albums + 1, ..p }
    };
    lemma_b_resume_albums(mid, c, t, c0, limit);
}

/// Going on with the songs of the album under work stays within the budget.
proof fn lemma_b_resume_songs(p: Progress, c: Stored, t: Seq<DiskArtist>, c0: Stored, limit: int)
    requires
        crate::reconciler::album_in_range(p, t),
        c.next_id + artists_pending(p, t) + albums_pending(p, t) + p.song_adds.len() <= limit,
    ensures
        resume_songs(p, t).0.awaiting is Nothing || c.next_id + pending_rows(
            resume_songs(p, t).0,
            t,
        ) <= limit,
{
    reveal(resume_songs);
    if !(0 <= p.song_delete_pos < p.song_deletes.len()) && p.song_adds.len() == 0 {
        lemma_b_finish_album(p, c, t, c0, limit);
    }
}

/// Where the catalog has as many identifiers left as the tree stands for rows, no
/// operation of the run fails, and the run stays within its budget.
pub proof fn lemma_budget_step(
    p: Progress,
    c: Stored,
    t: Seq<DiskArtist>,
    c0: Stored,
    c2: Stored,
    reply: Reply,
)
    requires
        inv(p, c, t, c0),
        within_budget(p, c, t, c0),
        c0.next_id + tree_rows(t) <= u128::MAX,
        !(p.awaiting is Nothing),
        answers(c, pending(p, t), c2, reply),
    ensures
        !(reply is Failed),
        within_budget(advance(p, t, reply).0, c2, t, c0),
{
    let limit = c0.next_id + tree_rows(t);
    let n = p.kept_artists as int;
    let d = t[p.artist];
    match p.awaiting {
        Awaiting::Page => {
            reveal(crate::reconciler::on_page);
            lemma_b_resume_artists(
                after_page(p, reply->Artists_rows, reply->has_more),
                c2,
                t,
                c0,
                limit,
            );
        },
        Awaiting::ArtistGone => {
            reveal(crate::reconciler::on_artist_gone);
            assert(c2.next_id == c.next_id);
            lemma_b_resume_artists(after_artist_gone(p), c2, t, c0, limit);
        },
        Awaiting::Albums => {
            reveal(crate::reconciler::on_albums);
            let rows = reply->Albums_rows;
            let mid = after_albums(p, t, rows);
            assert(mid.album_seen =~= none_seen(d.albums.len()));
            lemma_b_resume_albums(mid, c2, t, c0, limit);
        },
        Awaiting::AlbumGone => {
            reveal(crate::reconciler::on_album_gone);
            assert(c2.next_id == c.next_id);
            lemma_b_resume_albums(after_album_gone(p), c2, t, c0, limit);
        },
        Awaiting::Songs => {
            reveal(crate::reconciler::on_songs);
            let rows = reply->Songs_rows;
            let da = d.albums[p.album];
            lemma_missing_len(da.songs, row_keys(rows), da.songs.len() as int);
            lemma_b_resume_songs(after_songs(p, t, rows), c2, t, c0, limit);
        },
        Awaiting::SongGone => {
            reveal(crate::reconciler::on_song_gone);
            assert(c2.next_id == c.next_id);
            lemma_b_resume_songs(after_song_gone(p), c2, t, c0, limit);
        },
        Awaiting::SongsAdded => {
            lemma_album_at_hand(p, c, t);
            assert(holds_album(c.artists, p.album_id)) by {
                assert(c.artists[n].albums[p.kept_albums as int].id == p.album_id);
            }
            lemma_b_finish_album(p, c2, t, c0, limit);
        },
        Awaiting::AlbumAdded => {
            reveal(crate::reconciler::on_album_added);
            assert(holds_artist(c.artists, p.artist_id)) by {
                assert(c.artists[n].id == p.artist_id);
            }
            assert(!p.album_seen[p.album]);
            lemma_unseen_sum_mark(album_weights(d), p.album_seen, d.albums.len() as int, p.album);
            lemma_b_resume_songs(after_album_added(p, t, reply->id), c2, t, c0, limit);
        },
        Awaiting::ArtistAdded => {
            reveal(crate::reconciler::on_artist_added);
            assert(!p.artist_seen[p.artist]);
            lemma_unseen_sum_mark(artist_weights(t), p.artist_seen, t.len() as int, p.artist);
            let mid = after_artist_added(p, t, reply->id);
            assert(mid.album_seen =~= none_seen(d.albums.len()));
            crate::keys::lemma_unseen(mid.album_seen);
            lemma_b_add_albums(mid, c2, t, c0, limit);
        },
        Awaiting::Nothing => {},
    }
}

/// At the start of a run nothing has been handed out, and the whole tree may need
/// identifiers.
pub proof fn lemma_budget_begin(c: Stored, t: Seq<DiskArtist>)
    ensures
        within_budget(crate::reconciler::begin(t).0, c, t, c),
{
    assert(crate::reconciler::begin(t).0.artist_seen =~= none_seen(t.len()));
}

} // verus!
