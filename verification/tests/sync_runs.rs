use soniccave::database_sync::{perform, sync_database, SyncError};
use soniccave::entities::{AlbumModel, ArtistModel, SongModel};
use soniccave::queries::{
    add_album, add_artist, add_playlist_item, add_songs, get_albums_by_artist_id,
    get_playlist_items, get_songs_by_album_id, search_artists_paginated, Catalog,
};
use soniccave::reconciler::{Action, Event};
use soniccave::tag_parser::{parse, SongTags};
use soniccave::tree::DiskTree;

fn record(artist: &str, album: &str, year: i32, path: &str) -> SongTags {
    SongTags {
        artist: artist.to_string(),
        album: album.to_string(),
        duration: 180,
        track: 1,
        year,
        title: format!("title of {}", path),
        path: path.to_string(),
        genre: "rock".to_string(),
        suffix: "mp3".to_string(),
        content_type: "audio/mp3".to_string(),
        disc_number: 1,
    }
}

fn tree_of(records: Vec<SongTags>) -> DiskTree {
    parse(&records)
}

fn artist_names(catalog: &Catalog) -> Vec<String> {
    let mut names = Vec::new();
    let mut after = None;
    loop {
        let page = search_artists_paginated(catalog, 50, after);
        for row in &page.rows {
            names.push(row.name.clone());
            after = Some(row.id);
        }
        if !page.has_more {
            break;
        }
    }
    names
}

fn paths_under(catalog: &Catalog, artist: &str, album: &str) -> Vec<String> {
    let mut after = None;
    loop {
        let page = search_artists_paginated(catalog, 50, after);
        for row in &page.rows {
            after = Some(row.id);
            if row.name == artist {
                for a in get_albums_by_artist_id(catalog, row.id).unwrap_or(Vec::new()) {
                    if a.name == album {
                        return get_songs_by_album_id(catalog, a.id)
                            .unwrap_or(Vec::new())
                            .into_iter()
                            .map(|s| s.path)
                            .collect();
                    }
                }
            }
        }
        if !page.has_more {
            return Vec::new();
        }
    }
}

#[test]
fn fresh_insert_stores_artist_album_and_songs() {
    let tree = tree_of(vec![record("A", "X", 2020, "song1.mp3"), record("A", "X", 2020, "song2.mp3")]);
    let mut catalog = Catalog::new(1);
    let report = sync_database(tree, &mut catalog).unwrap();
    assert_eq!(report.inserts, 3);
    assert_eq!(report.deletes, 0);
    let page = search_artists_paginated(&catalog, 50, None);
    assert_eq!(page.rows.len(), 1);
    assert!(!page.has_more);
    assert_eq!(page.rows[0].name, "A");
    assert_eq!(page.rows[0].album_count, 1);
    let albums = get_albums_by_artist_id(&catalog, page.rows[0].id).unwrap();
    assert_eq!(albums.len(), 1);
    assert_eq!(albums[0].name, "X");
    assert_eq!(albums[0].year, 2020);
    assert_eq!(albums[0].song_count, 2);
    assert_eq!(albums[0].artist_id, page.rows[0].id);
    let songs = get_songs_by_album_id(&catalog, albums[0].id).unwrap();
    assert_eq!(songs.len(), 2);
    assert_eq!(songs[0].path, "song1.mp3");
    assert_eq!(songs[1].path, "song2.mp3");
    assert_eq!(songs[0].album_id, albums[0].id);
    assert_eq!(songs[0].title, "title of song1.mp3");
    assert_eq!(songs[0].duration, 180);
}

#[test]
fn removed_file_loses_its_row_and_its_playlist_items() {
    let mut catalog = Catalog::new(1);
    let first = tree_of(vec![
        record("A", "X", 2020, "song1.mp3"),
        record("A", "X", 2020, "song2.mp3"),
        record("A", "X", 2020, "song3.mp3"),
    ]);
    sync_database(first, &mut catalog).unwrap();
    let artist = search_artists_paginated(&catalog, 50, None).rows.remove(0);
    let album = get_albums_by_artist_id(&catalog, artist.id).unwrap().remove(0);
    let songs = get_songs_by_album_id(&catalog, album.id).unwrap();
    let kept_item = add_playlist_item(&mut catalog, 77, songs[0].id).unwrap();
    add_playlist_item(&mut catalog, 77, songs[2].id).unwrap();
    assert_eq!(get_playlist_items(&catalog).len(), 2);

    let second = tree_of(vec![record("A", "X", 2020, "song1.mp3"), record("A", "X", 2020, "song2.mp3")]);
    let report = sync_database(second, &mut catalog).unwrap();
    assert_eq!(report.inserts, 0);
    assert_eq!(report.deletes, 1);
    assert_eq!(paths_under(&catalog, "A", "X"), vec!["song1.mp3".to_string(), "song2.mp3".to_string()]);
    let items = get_playlist_items(&catalog);
    assert_eq!(items.len(), 1);
    assert_eq!(items[0].id, kept_item);
    assert_eq!(items[0].song_id, songs[0].id);
    let artist_after = search_artists_paginated(&catalog, 50, None).rows.remove(0);
    assert_eq!(artist_after.id, artist.id);
    let album_after = get_albums_by_artist_id(&catalog, artist.id).unwrap().remove(0);
    assert_eq!(album_after.id, album.id);
    assert_eq!(album_after.song_count, 2);
}

fn many_artists(n: usize) -> Vec<SongTags> {
    let mut records = Vec::new();
    for i in 0..n {
        records.push(record(&format!("artist {}", i), "album", 2000, &format!("path {}", i)));
    }
    records
}

#[test]
fn new_artist_is_added_behind_two_pages_of_stored_artists() {
    let mut catalog = Catalog::new(1);
    sync_database(tree_of(many_artists(51)), &mut catalog).unwrap();
    let first_page = search_artists_paginated(&catalog, 50, None);
    assert_eq!(first_page.rows.len(), 50);
    assert!(first_page.has_more);
    let before = artist_names(&catalog);
    assert_eq!(before.len(), 51);

    let mut records = many_artists(51);
    records.push(record("C", "Z", 1999, "songc.mp3"));
    let report = sync_database(tree_of(records), &mut catalog).unwrap();
    assert_eq!(report.deletes, 0);
    assert_eq!(report.inserts, 3);
    let after = artist_names(&catalog);
    assert_eq!(after.len(), 52);
    assert_eq!(&after[..51], &before[..]);
    assert_eq!(after[51], "C");
    assert_eq!(paths_under(&catalog, "C", "Z"), vec!["songc.mp3".to_string()]);
}

#[test]
fn second_run_on_unchanged_disk_writes_nothing() {
    let records = vec![
        record("A", "X", 2020, "song1.mp3"),
        record("A", "Y", 2021, "song2.mp3"),
        record("B", "X", 2019, "song3.mp3"),
    ];
    let mut catalog = Catalog::new(1);
    let first = sync_database(tree_of(records.clone_records()), &mut catalog).unwrap();
    assert_eq!(first.inserts, 2 + 3 + 3);
    let names = artist_names(&catalog);
    let second = sync_database(tree_of(records), &mut catalog).unwrap();
    assert_eq!(second.inserts, 0);
    assert_eq!(second.deletes, 0);
    assert_eq!(artist_names(&catalog), names);
}

trait CloneRecords {
    fn clone_records(&self) -> Vec<SongTags>;
}

impl CloneRecords for Vec<SongTags> {
    fn clone_records(&self) -> Vec<SongTags> {
        self.iter().map(|r| record(&r.artist, &r.album, r.year, &r.path)).collect()
    }
}

#[test]
fn every_page_is_gone_through_when_artists_leave_the_disk() {
    let mut catalog = Catalog::new(1);
    sync_database(tree_of(many_artists(120)), &mut catalog).unwrap();
    assert_eq!(artist_names(&catalog).len(), 120);
    let kept: Vec<SongTags> = many_artists(120).into_iter().filter(|r| r.path.ends_with('7')).collect();
    let kept_names: Vec<String> = kept.iter().map(|r| r.artist.clone()).collect();
    let report = sync_database(tree_of(kept), &mut catalog).unwrap();
    assert_eq!(report.inserts, 0);
    assert_eq!(report.deletes, 108);
    assert_eq!(artist_names(&catalog), kept_names);
}

#[test]
fn renamed_path_is_a_delete_and_an_insert() {
    let mut catalog = Catalog::new(1);
    sync_database(tree_of(vec![record("A", "X", 2020, "old")]), &mut catalog).unwrap();
    let artist = search_artists_paginated(&catalog, 50, None).rows.remove(0);
    let album = get_albums_by_artist_id(&catalog, artist.id).unwrap().remove(0);
    let old_song = get_songs_by_album_id(&catalog, album.id).unwrap().remove(0);
    let mut moved = record("A", "X", 2020, "new");
    moved.title = old_song.title.clone();
    let report = sync_database(tree_of(vec![moved]), &mut catalog).unwrap();
    assert_eq!(report.deletes, 1);
    assert_eq!(report.inserts, 1);
    let new_song = get_songs_by_album_id(&catalog, album.id).unwrap().remove(0);
    assert_eq!(new_song.path, "new");
    assert_eq!(new_song.title, old_song.title);
    assert_ne!(new_song.id, old_song.id);
}

#[test]
fn artist_that_left_the_disk_leaves_nothing_behind() {
    let mut catalog = Catalog::new(1);
    sync_database(
        tree_of(vec![record("A", "X", 2020, "song1.mp3"), record("B", "Y", 2020, "song2.mp3")]),
        &mut catalog,
    )
    .unwrap();
    let rows = search_artists_paginated(&catalog, 50, None).rows;
    let a_album = get_albums_by_artist_id(&catalog, rows[0].id).unwrap().remove(0);
    let a_song = get_songs_by_album_id(&catalog, a_album.id).unwrap().remove(0);
    add_playlist_item(&mut catalog, 5, a_song.id).unwrap();
    let report = sync_database(tree_of(vec![record("B", "Y", 2020, "song2.mp3")]), &mut catalog).unwrap();
    assert_eq!(report.deletes, 1);
    assert_eq!(artist_names(&catalog), vec!["B".to_string()]);
    assert!(get_albums_by_artist_id(&catalog, rows[0].id).is_none());
    assert!(get_songs_by_album_id(&catalog, a_album.id).is_none());
    assert!(get_playlist_items(&catalog).is_empty());
}

#[test]
fn stored_rows_with_the_same_name_collapse_into_one() {
    let mut catalog = Catalog::new(1);
    let first = add_artist(&mut catalog, &ArtistModel { name: "A".to_string() }).unwrap();
    add_artist(&mut catalog, &ArtistModel { name: "A".to_string() }).unwrap();
    let report =
        sync_database(tree_of(vec![record("A", "X", 2020, "song1.mp3")]), &mut catalog).unwrap();
    assert_eq!(report.deletes, 1);
    assert_eq!(report.inserts, 2);
    let rows = search_artists_paginated(&catalog, 50, None).rows;
    assert_eq!(rows.len(), 1);
    assert_eq!(rows[0].id, first);
}

#[test]
fn empty_disk_empties_the_catalog() {
    let mut catalog = Catalog::new(1);
    sync_database(tree_of(many_artists(3)), &mut catalog).unwrap();
    let report = sync_database(tree_of(Vec::new()), &mut catalog).unwrap();
    assert_eq!(report.deletes, 3);
    assert!(artist_names(&catalog).is_empty());
}

#[test]
fn run_fails_when_no_identifier_is_left() {
    let mut catalog = Catalog::new(u128::MAX);
    let r = sync_database(tree_of(vec![record("A", "X", 2020, "song1.mp3")]), &mut catalog);
    assert_eq!(r, Err(SyncError::OperationFailed));
    assert!(artist_names(&catalog).is_empty());
}

#[test]
fn perform_answers_each_request() {
    let mut catalog = Catalog::new(10);
    let added = perform(
        &mut catalog,
        &Action::AddArtist { artist: ArtistModel { name: "A".to_string() } },
    );
    assert_eq!(added, Event::Added { id: 10 });
    let album = perform(
        &mut catalog,
        &Action::AddAlbum {
            artist_id: 10,
            album: AlbumModel { name: "X".to_string(), year: 1 },
        },
    );
    assert_eq!(album, Event::Added { id: 11 });
    let missing = perform(
        &mut catalog,
        &Action::AddAlbum { artist_id: 99, album: AlbumModel { name: "X".to_string(), year: 1 } },
    );
    assert_eq!(missing, Event::Failed);
    assert_eq!(perform(&mut catalog, &Action::DeleteSong { id: 1234 }), Event::Done);
    assert_eq!(perform(&mut catalog, &Action::Finish), Event::Failed);
    match perform(&mut catalog, &Action::ListAlbums { artist_id: 10 }) {
        Event::Albums { rows } => {
            assert_eq!(rows.len(), 1);
            assert_eq!(rows[0].id, 11);
        }
        _ => panic!("albums expected"),
    }
    match perform(&mut catalog, &Action::ListSongs { album_id: 11 }) {
        Event::Songs { rows } => assert!(rows.is_empty()),
        _ => panic!("songs expected"),
    }
    let song = SongModel {
        title: "t".to_string(),
        duration: 1,
        track: 2,
        path: "p".to_string(),
        genre: "g".to_string(),
        suffix: "s".to_string(),
        content_type: "c".to_string(),
        disc_number: 3,
    };
    assert_eq!(add_songs(&mut catalog, 11, &vec![song]), Ok(()));
    assert_eq!(add_album(&mut catalog, 10, &AlbumModel { name: "Y".to_string(), year: 2 }), Ok(13));
}
