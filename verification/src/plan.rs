//! What to do with the stored songs of one album, given the album as it is on disk.

use crate::entities::{DiskSong, Song, SongModel};
use crate::keys::{
    distinct, keeps, lemma_position, lemma_position_push, lemma_position_take, position, Key,
};
use crate::tree::{album_well_formed, song_paths, songs_of, AlbumEntry, DiskAlbum};
use vstd::prelude::*;

verus! {

/// What matching reads of a stored row: its identifier and its natural key.
pub struct RowKey {
    pub id: u128,
    pub key: Key,
}

/// The keys of a run of rows.
pub open spec fn row_keys(rows: Seq<RowKey>) -> Seq<Key> {
    Seq::new(rows.len(), |k: int| rows[k].key)
}

/// Song rows as matching reads them: by path.
pub open spec fn song_rows(rows: Seq<Song>) -> Seq<RowKey> {
    Seq::new(rows.len(), |k: int| RowKey { id: rows[k].id, key: rows[k].path@ })
}

/// The identifiers, in row order, of those among the first `n` rows that do not keep
/// their place.
pub open spec fn stale_upto(rows: Seq<RowKey>, disk: Seq<Key>, n: int) -> Seq<u128>
    decreases n,
{
    if n <= 0 {
        Seq::empty()
    } else {
        let rest = stale_upto(rows, disk, n - 1);
        if keeps(disk, row_keys(rows), n - 1) {
            rest
        } else {
            rest.push(rows[n - 1].id)
        }
    }
}

/// The identifiers of the rows to delete: those whose key is not on disk, and those
/// whose key an earlier row has already.
pub open spec fn stale(rows: Seq<RowKey>, disk: Seq<Key>) -> Seq<u128> {
    stale_upto(rows, disk, rows.len() as int)
}

/// Those among the first `n` songs on disk whose path no row has, in disk order.
pub open spec fn missing_upto(songs: Seq<DiskSong>, rows: Seq<Key>, n: int) -> Seq<DiskSong>
    decreases n,
{
    if n <= 0 {
        Seq::empty()
    } else {
        let rest = missing_upto(songs, rows, n - 1);
        if position(rows, songs[n - 1].path) is Some {
            rest
        } else {
            rest.push(songs[n - 1])
        }
    }
}

/// The songs to insert: those on disk whose path no row has, in disk order.
pub open spec fn missing(songs: Seq<DiskSong>, rows: Seq<Key>) -> Seq<DiskSong> {
    missing_upto(songs, rows, songs.len() as int)
}

/// The song rows to delete, and the songs to insert in one batch.
pub struct SongPlan {
    pub delete: Vec<u128>,
    pub insert: Vec<SongModel>,
}

/// `n` flags, none of which holds.
pub fn no_flags(n: usize) -> (r: Vec<bool>)
    ensures
        r@.len() == n,
        forall|j: int| 0 <= j < n ==> !(#[trigger] r@[j]),
{
    let mut r: Vec<bool> = Vec::new();
    let mut j: usize = 0;
    while j < n
        invariant
            j <= n,
            r@.len() == j,
            forall|x: int| 0 <= x < j ==> !(#[trigger] r@[x]),
        decreases n - j,
    {
        r.push(false);
        j += 1;
    }
    r
}

/// Matches the stored songs of an album against the album on disk by path alone. A row
/// stays where its path is on disk and no earlier row has it; every other row is
/// deleted. A song on disk whose path no row has is inserted.
pub fn plan_songs(album: &AlbumEntry, rows: &Vec<Song>) -> (plan: SongPlan)
    requires
        album_well_formed(album@),
    ensures
        plan.delete@ == stale(song_rows(rows@), song_paths(album@)),
        songs_of(plan.insert@) == missing(album@.songs, row_keys(song_rows(rows@))),
{
    let ghost disk = song_paths(album@);
    let ghost keyed = song_rows(rows@);
    let ghost keys = row_keys(keyed);
    let mut seen = no_flags(album.songs.len());
    let mut delete: Vec<u128> = Vec::new();
    let mut k: usize = 0;
    while k < rows.len()
        invariant
            k <= rows.len(),
            disk == song_paths(album@),
            keyed == song_rows(rows@),
            keys == row_keys(keyed),
            distinct(disk),
            seen@.len() == disk.len(),
            forall|j: int|
                0 <= j < disk.len() ==> (#[trigger] seen@[j] <==> position(
                    keys.take(k as int),
                    disk[j],
                ) is Some),
            delete@ == stale_upto(keyed, disk, k as int),
        decreases rows.len() - k,
    {
        let found = album.find_song(&rows[k].path);
        proof {
            let key = keys[k as int];
            assert(key == rows@[k as int].path@);
            lemma_position(disk, key);
            lemma_position(keys, key);
            lemma_position_take(keys, k as int, key);
            assert(keys.take(k + 1) =~= keys.take(k as int).push(key));
            assert forall|j: int| 0 <= j < disk.len() implies (position(
                keys.take(k + 1),
                #[trigger] disk[j],
            ) is Some <==> position(keys.take(k as int), disk[j]) is Some || disk[j] == key) by {
                lemma_position_push(keys.take(k as int), key, disk[j]);
            }
        }
        let kept = match found {
            Some(j) => if seen[j] {
                false
            } else {
                seen.set(j, true);
                true
            },
            None => false,
        };
        assert(kept == keeps(disk, keys, k as int));
        if !kept {
            delete.push(rows[k].id);
        }
        k += 1;
    }
    proof {
        assert(keys.take(k as int) =~= keys);
    }
    let mut insert: Vec<SongModel> = Vec::new();
    let mut j: usize = 0;
    while j < album.songs.len()
        invariant
            j <= album.songs.len(),
            disk == song_paths(album@),
            seen@.len() == disk.len(),
            disk.len() == album.songs.len(),
            forall|x: int| 0 <= x < disk.len() ==> (#[trigger] seen@[x] <==> position(keys, disk[x]) is Some),
            songs_of(insert@) == missing_upto(album@.songs, keys, j as int),
        decreases album.songs.len() - j,
    {
        proof {
            assert(disk[j as int] == album@.songs[j as int].path);
        }
        if !seen[j] {
            let ghost before = songs_of(insert@);
            insert.push(album.songs[j].clone());
            proof {
                assert(songs_of(insert@) =~= before.push(album@.songs[j as int]));
            }
        }
        j += 1;
    }
    SongPlan { delete, insert }
}

/// Whether `id` is the identifier of one of the first `n` rows that does not keep its
/// place.
pub open spec fn loses_place(rows: Seq<RowKey>, disk: Seq<Key>, n: int, id: u128) -> bool {
    exists|k: int| 0 <= k < n && !keeps(disk, row_keys(rows), k) && (#[trigger] rows[k]).id == id
}

/// Whether `song` is one of the first `n` songs on disk and no row has its path.
pub open spec fn lacks_row(songs: Seq<DiskSong>, rows: Seq<Key>, n: int, song: DiskSong) -> bool {
    exists|s: int| 0 <= s < n && position(rows, songs[s].path) is None && (#[trigger] songs[s]) == song
}

/// The rows to delete among the first `n` are exactly those that do not keep their
/// place; where no two rows share an identifier, none is listed twice, and no row that
/// keeps its place is listed.
pub proof fn lemma_stale_upto(rows: Seq<RowKey>, disk: Seq<Key>, n: int)
    requires
        0 <= n <= rows.len(),
    ensures
        forall|x: int|
            0 <= x < stale_upto(rows, disk, n).len() ==> loses_place(
                rows,
                disk,
                n,
                #[trigger] stale_upto(rows, disk, n)[x],
            ),
        forall|k: int|
            0 <= k < n && !keeps(disk, row_keys(rows), k) ==> stale_upto(rows, disk, n).contains(
                (#[trigger] rows[k]).id,
            ),
        (forall|a: int, b: int| 0 <= a < b < rows.len() ==> rows[a].id != rows[b].id) ==> {
            &&& forall|x: int, y: int|
                0 <= x < y < stale_upto(rows, disk, n).len() ==> stale_upto(rows, disk, n)[x]
                    != stale_upto(rows, disk, n)[y]
            &&& forall|k: int|
                0 <= k < rows.len() && (k >= n || keeps(disk, row_keys(rows), k)) ==> !stale_upto(
                    rows,
                    disk,
                    n,
                ).contains((#[trigger] rows[k]).id)
        },
    decreases n,
{
    if n > 0 {
        lemma_stale_upto(rows, disk, n - 1);
        let rest = stale_upto(rows, disk, n - 1);
        let all = stale_upto(rows, disk, n);
        let kept = keeps(disk, row_keys(rows), n - 1);
        assert forall|x: int| 0 <= x < all.len() implies loses_place(rows, disk, n, #[trigger] all[x]) by {
            if x < rest.len() {
                assert(loses_place(rows, disk, n - 1, rest[x]));
                let k = choose|k: int|
                    0 <= k < n - 1 && !keeps(disk, row_keys(rows), k) && (#[trigger] rows[k]).id
                        == rest[x];
                assert(rows[k].id == all[x]);
            } else {
                assert(rows[n - 1].id == all[x]);
            }
        }
        assert forall|k: int| 0 <= k < n && !keeps(disk, row_keys(rows), k) implies all.contains(
            (#[trigger] rows[k]).id,
        ) by {
            if k < n - 1 {
                let x = choose|x: int| 0 <= x < rest.len() && rest[x] == rows[k].id;
                assert(all[x] == rows[k].id);
            } else {
                assert(all[all.len() - 1] == rows[k].id);
            }
        }
        if forall|a: int, b: int| 0 <= a < b < rows.len() ==> rows[a].id != rows[b].id {
            assert forall|k: int|
                0 <= k < rows.len() && (k >= n || keeps(disk, row_keys(rows), k)) implies !all.contains(
                (#[trigger] rows[k]).id,
            ) by {
                if all.contains(rows[k].id) {
                    let x = choose|x: int| 0 <= x < all.len() && all[x] == rows[k].id;
                    if x < rest.len() {
                        assert(rest[x] == rows[k].id);
                        assert(rest.contains(rows[k].id));
                    } else {
                        assert(k != n - 1);
                    }
                }
            }
            assert forall|x: int, y: int| 0 <= x < y < all.len() implies all[x] != all[y] by {
                if y >= rest.len() {
                    assert(rest[x] == all[x]);
                    if rest[x] == rows[n - 1].id {
                        assert(rest.contains(rows[n - 1].id));
                    }
                } else {
                    assert(rest[x] != rest[y]);
                }
            }
        }
    }
}

/// The songs to insert among the first `n` on disk are exactly those whose path no row
/// has; where no two songs on disk share a path, no two of them do.
pub proof fn lemma_missing_upto(songs: Seq<DiskSong>, rows: Seq<Key>, n: int)
    requires
        0 <= n <= songs.len(),
    ensures
        forall|x: int|
            0 <= x < missing_upto(songs, rows, n).len() ==> lacks_row(
                songs,
                rows,
                n,
                #[trigger] missing_upto(songs, rows, n)[x],
            ),
        forall|s: int|
            0 <= s < n && position(rows, (#[trigger] songs[s]).path) is None ==> missing_upto(
                songs,
                rows,
                n,
            ).contains(songs[s]),
        (forall|a: int, b: int| 0 <= a < b < songs.len() ==> songs[a].path != songs[b].path)
            ==> forall|x: int, y: int|
            0 <= x < y < missing_upto(songs, rows, n).len() ==> missing_upto(songs, rows, n)[x].path
                != missing_upto(songs, rows, n)[y].path,
    decreases n,
{
    if n > 0 {
        lemma_missing_upto(songs, rows, n - 1);
        let rest = missing_upto(songs, rows, n - 1);
        let all = missing_upto(songs, rows, n);
        assert forall|x: int| 0 <= x < all.len() implies lacks_row(songs, rows, n, #[trigger] all[x]) by {
            if x < rest.len() {
                assert(lacks_row(songs, rows, n - 1, rest[x]));
                let s = choose|s: int|
                    0 <= s < n - 1 && position(rows, songs[s].path) is None && (#[trigger] songs[s])
                        == rest[x];
                assert(songs[s] == all[x]);
            } else {
                assert(songs[n - 1] == all[x]);
            }
        }
        assert forall|s: int|
            0 <= s < n && position(rows, (#[trigger] songs[s]).path) is None implies all.contains(
            songs[s],
        ) by {
            if s < n - 1 {
                let x = choose|x: int| 0 <= x < rest.len() && rest[x] == songs[s];
                assert(all[x] == songs[s]);
            } else {
                assert(all[all.len() - 1] == songs[s]);
            }
        }
        if forall|a: int, b: int| 0 <= a < b < songs.len() ==> songs[a].path != songs[b].path {
            assert forall|x: int, y: int| 0 <= x < y < all.len() implies all[x].path
                != all[y].path by {
                if y >= rest.len() {
                    assert(rest[x] == all[x]);
                    assert(lacks_row(songs, rows, n - 1, rest[x]));
                    let s = choose|s: int|
                        0 <= s < n - 1 && position(rows, songs[s].path) is None
                            && (#[trigger] songs[s]) == rest[x];
                    assert(songs[s].path != songs[n - 1].path);
                } else {
                    assert(rest[x].path != rest[y].path);
                }
            }
        }
    }
}

/// Where there are no rows, every song on disk is to be inserted.
pub proof fn lemma_all_missing(songs: Seq<DiskSong>, n: int)
    requires
        0 <= n <= songs.len(),
    ensures
        missing_upto(songs, Seq::<Key>::empty(), n) == songs.take(n),
    decreases n,
{
    if n > 0 {
        lemma_all_missing(songs, n - 1);
        lemma_position(Seq::<Key>::empty(), songs[n - 1].path);
        assert(songs.take(n) =~= songs.take(n - 1).push(songs[n - 1]));
    } else {
        assert(songs.take(0) =~= Seq::<DiskSong>::empty());
    }
}

/// A file that has moved shows as a delete and an insert: the row whose path is no
/// longer on disk is among the rows to delete, and the song on disk whose path no row
/// has is among the songs to insert, whatever else the two agree in.
pub proof fn lemma_moved_file(album: DiskAlbum, rows: Seq<RowKey>, k: int, s: int)
    requires
        0 <= k < rows.len(),
        0 <= s < album.songs.len(),
        position(song_paths(album), rows[k].key) is None,
        position(row_keys(rows), album.songs[s].path) is None,
    ensures
        stale(rows, song_paths(album)).contains(rows[k].id),
        missing(album.songs, row_keys(rows)).contains(album.songs[s]),
{
    lemma_stale_upto(rows, song_paths(album), rows.len() as int);
    lemma_missing_upto(album.songs, row_keys(rows), album.songs.len() as int);
    assert(row_keys(rows)[k] == rows[k].key);
}

/// A row whose path is on disk, and which no earlier row shares it with, is not among
/// the rows to delete, and the song of that path is not among the songs to insert.
pub proof fn lemma_kept_file(album: DiskAlbum, rows: Seq<RowKey>, k: int, s: int)
    requires
        forall|a: int, b: int| 0 <= a < b < rows.len() ==> rows[a].id != rows[b].id,
        distinct(song_paths(album)),
        0 <= k < rows.len(),
        0 <= s < album.songs.len(),
        rows[k].key == album.songs[s].path,
        keeps(song_paths(album), row_keys(rows), k),
    ensures
        !stale(rows, song_paths(album)).contains(rows[k].id),
        !missing(album.songs, row_keys(rows)).contains(album.songs[s]),
{
    let keys = row_keys(rows);
    let out = missing(album.songs, keys);
    lemma_stale_upto(rows, song_paths(album), rows.len() as int);
    lemma_missing_upto(album.songs, keys, album.songs.len() as int);
    if out.contains(album.songs[s]) {
        let x = choose|x: int| 0 <= x < out.len() && out[x] == album.songs[s];
        assert(lacks_row(album.songs, keys, album.songs.len() as int, out[x]));
        assert(keys[k] == album.songs[s].path);
        lemma_position(keys, album.songs[s].path);
    }
}

} // verus!
