use soniccave::auth::{authorize, token_matches, Auth};
use soniccave::entities::{
    Album, AlbumModel, Artist, ArtistModel, Song, SongModel, UserModel,
};
use soniccave::queries::{
    add_album, add_artist, add_playlist_item, add_songs, delete_album_by_id, delete_artist_by_id,
    delete_song_by_id, get_albums_by_artist_id, get_playlist_items, get_song_paths,
    get_songs_by_album_id, search_artists_paginated, Catalog, QueryError,
};
use soniccave::reconciler::{Action, Event, Reconciler, SyncReport};
use soniccave::responses::{
    get_server_version, get_status_ok, get_type, get_version, SubsonicResponse,
};
use soniccave::tag_parser::{parse, SongTags};
use soniccave::tree::DiskTree;

fn song(path: &str) -> SongModel {
    SongModel {
        title: format!("t {}", path),
        duration: 10,
        track: 1,
        path: path.to_string(),
        genre: "g".to_string(),
        suffix: "mp3".to_string(),
        content_type: "audio/mp3".to_string(),
        disc_number: 1,
    }
}

fn artist(name: &str) -> ArtistModel {
    ArtistModel { name: name.to_string() }
}

fn album(name: &str, year: i32) -> AlbumModel {
    AlbumModel { name: name.to_string(), year }
}

fn record(artist: &str, album: &str, year: i32, path: &str) -> SongTags {
    SongTags {
        artist: artist.to_string(),
        album: album.to_string(),
        duration: 1,
        track: 2,
        year,
        title: "t".to_string(),
        path: path.to_string(),
        genre: "g".to_string(),
        suffix: "s".to_string(),
        content_type: "c".to_string(),
        disc_number: 3,
    }
}

#[test]
fn records_fold_into_artists_albums_and_songs() {
    let tree = parse(&vec![
        record("A", "X", 2001, "song1.mp3"),
        record("B", "X", 2002, "song2.mp3"),
        record("A", "Y", 2003, "song3.mp3"),
        record("A", "X", 1900, "song4.mp3"),
    ]);
    assert_eq!(tree.artists.len(), 2);
    assert_eq!(tree.artists[0].artist.name, "A");
    assert_eq!(tree.artists[1].artist.name, "B");
    assert_eq!(tree.artists[0].albums.len(), 2);
    assert_eq!(tree.artists[0].albums[0].album.name, "X");
    assert_eq!(tree.artists[0].albums[0].album.year, 2001);
    assert_eq!(tree.artists[0].albums[1].album.name, "Y");
    let paths: Vec<&str> =
        tree.artists[0].albums[0].songs.iter().map(|s| s.path.as_str()).collect();
    assert_eq!(paths, vec!["song1.mp3", "song4.mp3"]);
    assert_eq!(tree.artists[1].albums[0].songs[0].path, "song2.mp3");
    assert_eq!(tree.artists[1].albums[0].songs[0].disc_number, 3);
    assert_eq!(tree.find_artist(&"B".to_string()), Some(1));
    assert_eq!(tree.find_artist(&"b".to_string()), None);
    assert_eq!(tree.artists[0].find_album(&"Y".to_string()), Some(1));
    assert_eq!(tree.artists[0].albums[0].find_song(&"song4.mp3".to_string()), Some(1));
    assert_eq!(parse(&Vec::new()), DiskTree::new());
}

#[test]
fn identifiers_are_handed_out_in_order() {
    let mut c = Catalog::new(5);
    assert_eq!(add_artist(&mut c, &artist("A")), Ok(5));
    assert_eq!(add_album(&mut c, 5, &album("X", 1)), Ok(6));
    assert_eq!(add_songs(&mut c, 6, &vec![song("song1.mp3"), song("song2.mp3")]), Ok(()));
    assert_eq!(add_artist(&mut c, &artist("B")), Ok(9));
    let songs = get_songs_by_album_id(&c, 6).unwrap();
    assert_eq!(songs.iter().map(|s| s.id).collect::<Vec<_>>(), vec![7, 8]);
    assert_eq!(songs[1].title, "t song2.mp3");
    assert_eq!(add_album(&mut c, 77, &album("X", 1)), Err(QueryError::MissingParent));
    assert_eq!(add_songs(&mut c, 5, &vec![song("p")]), Err(QueryError::MissingParent));
    assert_eq!(add_playlist_item(&mut c, 1, 5), Err(QueryError::MissingParent));
}

#[test]
fn inserts_fail_when_identifiers_run_out() {
    let mut c = Catalog::new(u128::MAX - 2);
    assert_eq!(add_artist(&mut c, &artist("A")), Ok(u128::MAX - 2));
    assert_eq!(add_album(&mut c, u128::MAX - 2, &album("X", 1)), Ok(u128::MAX - 1));
    assert_eq!(
        add_songs(&mut c, u128::MAX - 1, &vec![song("p")]),
        Err(QueryError::IdentifiersExhausted)
    );
    assert_eq!(add_artist(&mut c, &artist("B")), Err(QueryError::IdentifiersExhausted));
    assert_eq!(
        add_album(&mut c, u128::MAX - 2, &album("Y", 1)),
        Err(QueryError::IdentifiersExhausted)
    );
    assert_eq!(add_songs(&mut c, u128::MAX - 1, &Vec::new()), Ok(()));
}

#[test]
fn pages_follow_the_identifier_given() {
    let mut c = Catalog::new(1);
    for i in 0..5 {
        add_artist(&mut c, &artist(&format!("a{}", i))).unwrap();
    }
    let first = search_artists_paginated(&c, 2, None);
    assert_eq!(first.rows.iter().map(|r| r.id).collect::<Vec<_>>(), vec![1, 2]);
    assert!(first.has_more);
    let second = search_artists_paginated(&c, 2, Some(2));
    assert_eq!(second.rows.iter().map(|r| r.id).collect::<Vec<_>>(), vec![3, 4]);
    assert!(second.has_more);
    let third = search_artists_paginated(&c, 2, Some(4));
    assert_eq!(third.rows.iter().map(|r| r.id).collect::<Vec<_>>(), vec![5]);
    assert!(!third.has_more);
    delete_artist_by_id(&mut c, 3);
    let again = search_artists_paginated(&c, 2, Some(2));
    assert_eq!(again.rows.iter().map(|r| r.id).collect::<Vec<_>>(), vec![4, 5]);
    assert!(!again.has_more);
    assert!(search_artists_paginated(&c, 0, None).rows.is_empty());
    assert!(search_artists_paginated(&c, 0, None).has_more);
    assert!(search_artists_paginated(&c, 2, Some(5)).rows.is_empty());
}

#[test]
fn deletes_take_everything_below_with_them() {
    let mut c = Catalog::new(1);
    let a = add_artist(&mut c, &artist("A")).unwrap();
    let x = add_album(&mut c, a, &album("X", 1)).unwrap();
    let y = add_album(&mut c, a, &album("Y", 2)).unwrap();
    add_songs(&mut c, x, &vec![song("song1.mp3"), song("song2.mp3")]).unwrap();
    add_songs(&mut c, y, &vec![song("song3.mp3")]).unwrap();
    let b = add_artist(&mut c, &artist("B")).unwrap();
    let z = add_album(&mut c, b, &album("Z", 3)).unwrap();
    add_songs(&mut c, z, &vec![song("song4.mp3")]).unwrap();
    let xs = get_songs_by_album_id(&c, x).unwrap();
    let ys = get_songs_by_album_id(&c, y).unwrap();
    let zs = get_songs_by_album_id(&c, z).unwrap();
    let l1 = add_playlist_item(&mut c, 1, xs[0].id).unwrap();
    let l2 = add_playlist_item(&mut c, 1, xs[1].id).unwrap();
    let l3 = add_playlist_item(&mut c, 1, ys[0].id).unwrap();
    let l4 = add_playlist_item(&mut c, 2, zs[0].id).unwrap();
    let paths: Vec<String> = get_song_paths(&c).into_iter().map(|p| p.path).collect();
    assert_eq!(paths, vec!["song1.mp3", "song2.mp3", "song3.mp3", "song4.mp3"]);

    delete_song_by_id(&mut c, xs[0].id);
    let left: Vec<u128> = get_playlist_items(&c).iter().map(|i| i.id).collect();
    assert_eq!(left, vec![l2, l3, l4]);
    assert_eq!(get_albums_by_artist_id(&c, a).unwrap()[0].song_count, 1);
    let _ = l1;

    delete_album_by_id(&mut c, y);
    let left: Vec<u128> = get_playlist_items(&c).iter().map(|i| i.id).collect();
    assert_eq!(left, vec![l2, l4]);
    assert!(get_songs_by_album_id(&c, y).is_none());
    assert_eq!(search_artists_paginated(&c, 10, None).rows[0].album_count, 1);

    delete_artist_by_id(&mut c, a);
    let left: Vec<u128> = get_playlist_items(&c).iter().map(|i| i.id).collect();
    assert_eq!(left, vec![l4]);
    assert!(get_albums_by_artist_id(&c, a).is_none());
    assert!(get_songs_by_album_id(&c, x).is_none());
    let rows = search_artists_paginated(&c, 10, None).rows;
    assert_eq!(rows.len(), 1);
    assert_eq!(rows[0].id, b);
    let paths: Vec<String> = get_song_paths(&c).into_iter().map(|p| p.path).collect();
    assert_eq!(paths, vec!["song4.mp3"]);

    delete_artist_by_id(&mut c, 4242);
    delete_album_by_id(&mut c, 4242);
    delete_song_by_id(&mut c, 4242);
    assert_eq!(search_artists_paginated(&c, 10, None).rows.len(), 1);
}

#[test]
fn machine_asks_for_the_first_page_and_gives_up_on_failure() {
    let tree = parse(&vec![record("A", "X", 1, "p")]);
    let (mut m, first) = Reconciler::begin(tree);
    assert_eq!(first, Action::ListArtists { after: None });
    assert!(!m.is_over());
    assert_eq!(m.step(Event::Artists { rows: Vec::new(), has_more: false }), Action::AddArtist {
        artist: artist("A")
    });
    assert_eq!(m.step(Event::Failed), Action::Abort);
    assert!(m.is_over());
    assert!(m.has_failed());
    assert_eq!(m.report(), SyncReport { inserts: 1, deletes: 0 });
    assert_eq!(m.step(Event::Done), Action::Abort);
}

#[test]
fn machine_gives_up_on_an_answer_that_does_not_fit() {
    let (mut m, _) = Reconciler::begin(DiskTree::new());
    assert_eq!(m.step(Event::Done), Action::Abort);
    assert!(m.has_failed());
    let (mut m, _) = Reconciler::begin(DiskTree::new());
    assert_eq!(m.step(Event::Artists { rows: Vec::new(), has_more: true }), Action::Abort);
    let (mut m, _) = Reconciler::begin(DiskTree::new());
    assert_eq!(m.step(Event::Artists { rows: Vec::new(), has_more: false }), Action::Finish);
    assert!(m.is_over());
    assert!(!m.has_failed());
}

#[test]
fn machine_walks_one_artist_through_all_levels() {
    let tree = parse(&vec![record("A", "X", 1, "keep"), record("A", "X", 1, "new")]);
    let (mut m, _) = Reconciler::begin(tree);
    let rows = vec![
        Artist { id: 1, name: "gone".to_string(), album_count: 0 },
        Artist { id: 2, name: "A".to_string(), album_count: 2 },
    ];
    assert_eq!(m.step(Event::Artists { rows, has_more: false }), Action::DeleteArtist { id: 1 });
    assert_eq!(m.step(Event::Done), Action::ListAlbums { artist_id: 2 });
    let albums = vec![
        Album { id: 3, name: "X".to_string(), year: 9, song_count: 2, artist_id: 2 },
        Album { id: 4, name: "old".to_string(), year: 9, song_count: 0, artist_id: 2 },
    ];
    assert_eq!(m.step(Event::Albums { rows: albums }), Action::ListSongs { album_id: 3 });
    let stored = |id: u128, path: &str| Song {
        id,
        title: "t".to_string(),
        path: path.to_string(),
        genre: "g".to_string(),
        suffix: "s".to_string(),
        content_type: "c".to_string(),
        track: 1,
        duration: 1,
        album_id: 3,
        disc_number: 1,
    };
    let songs = vec![stored(5, "stale"), stored(6, "keep"), stored(7, "keep")];
    assert_eq!(m.step(Event::Songs { rows: songs }), Action::DeleteSong { id: 5 });
    assert_eq!(m.step(Event::Done), Action::DeleteSong { id: 7 });
    match m.step(Event::Done) {
        Action::AddSongs { album_id, songs } => {
            assert_eq!(album_id, 3);
            assert_eq!(songs.len(), 1);
            assert_eq!(songs[0].path, "new");
        }
        other => panic!("unexpected {:?}", other),
    }
    assert_eq!(m.step(Event::Done), Action::DeleteAlbum { id: 4 });
    assert_eq!(m.step(Event::Done), Action::Finish);
    assert_eq!(m.report(), SyncReport { inserts: 1, deletes: 4 });
}

#[test]
fn failure_answers_carry_their_fixed_fields() {
    let r = SubsonicResponse::from_message("boom".to_string()).subsonic_response;
    assert_eq!(r.status, "failed");
    assert_eq!(r.version, "1.16.1");
    assert_eq!(r.server_type, "soniccave");
    assert_eq!(r.server_version, "0.0.1");
    assert_eq!(r.error.code, 0);
    assert_eq!(r.error.message, "boom");
    let r = SubsonicResponse::from_error_code(10, "missing".to_string()).subsonic_response;
    assert_eq!(r.status, "failed");
    assert_eq!(r.version, "1.1.16");
    assert_eq!(r.server_type, "soniccave");
    assert_eq!(r.server_version, "0.0.1");
    assert_eq!(r.error.code, 10);
    assert_eq!(r.error.message, "missing");
    assert_eq!(get_status_ok(), "ok");
    assert_eq!(get_version(), "1.16.1");
    assert_eq!(get_type(), "soniccave");
    assert_eq!(get_server_version(), "0.0.1");
}

#[test]
fn token_is_the_digest_of_password_and_salt() {
    let auth = Auth {
        u: "joe".to_string(),
        t: "26719a1196d2a940705a59634eb18eab".to_string(),
        s: "c19b2d".to_string(),
        v: "1.16.1".to_string(),
        c: "app".to_string(),
        f: "json".to_string(),
    };
    assert!(auth.accepts(&"sesame".to_string()));
    assert!(!auth.accepts(&"Sesame".to_string()));
    let user = UserModel { username: "joe".to_string(), password: "sesame".to_string() };
    assert!(authorize(&auth, Some(&user)));
    assert!(!authorize(&auth, None));
    assert!(!authorize(&Auth::default(), Some(&user)));
    assert!(token_matches(&"ab".to_string(), &"ab".to_string()));
    assert!(!token_matches(&"ab".to_string(), &"AB".to_string()));
    assert_eq!(Auth::default().u, "");
}

#[test]
fn requests_fall_back_to_their_defaults() {
    use_defaults();
}

fn use_defaults() {
    let q = soniccave::endpoint_handlers::SearchQuery {
        query: "x".to_string(),
        artist_count: None,
        artist_offset: Some(3),
        album_count: Some(7),
        album_offset: None,
        song_count: Some(-1),
        song_offset: None,
    };
    assert_eq!((q.artist_limit(), q.artist_start()), (10, 3));
    assert_eq!((q.album_limit(), q.album_start()), (7, 0));
    assert_eq!((q.song_limit(), q.song_start()), (-1, 0));
    let a = soniccave::endpoint_handlers::GetAlbumsQuery {
        kind: "newest".to_string(),
        size: None,
        offset: None,
    };
    assert!(a.is_supported());
    assert_eq!((a.limit(), a.start()), (10, 0));
    let b = soniccave::endpoint_handlers::GetAlbumsQuery {
        kind: "Newest".to_string(),
        size: Some(2),
        offset: Some(4),
    };
    assert!(!b.is_supported());
    assert_eq!((b.limit(), b.start()), (2, 4));
    let c = soniccave::endpoint_handlers::CountQuery { count: Some(3) };
    assert!(c.covers(3));
    assert!(!c.covers(2));
    assert!(!soniccave::endpoint_handlers::CountQuery { count: None }.covers(0));
    assert!(!soniccave::endpoint_handlers::CountQuery { count: Some(-1) }.covers(0));
}

#[test]
fn songs_are_laid_out_column_by_column() {
    let columns = soniccave::queries::song_columns(9, &vec![song("a"), song("b")]);
    assert_eq!(columns.path, vec!["a".to_string(), "b".to_string()]);
    assert_eq!(columns.title, vec!["t a".to_string(), "t b".to_string()]);
    assert_eq!(columns.album_id, vec![9, 9]);
    assert_eq!(columns.track, vec![1, 1]);
    assert_eq!(columns.duration, vec![10, 10]);
    assert_eq!(columns.disc_number, vec![1, 1]);
    assert_eq!(columns.genre.len(), 2);
    assert_eq!(columns.suffix[1], "mp3");
    assert_eq!(columns.content_type[0], "audio/mp3");
    assert!(soniccave::queries::song_columns(9, &Vec::new()).path.is_empty());
}

#[test]
fn rows_are_found_by_identifier_and_by_name() {
    let mut c = Catalog::new(1);
    let a = add_artist(&mut c, &artist("A")).unwrap();
    let b = add_artist(&mut c, &artist("B")).unwrap();
    add_artist(&mut c, &artist("B")).unwrap();
    let x = add_album(&mut c, b, &album("X", 1999)).unwrap();
    add_songs(&mut c, x, &vec![song("p")]).unwrap();
    let s = get_songs_by_album_id(&c, x).unwrap()[0].id;
    let all = soniccave::queries::get_all_artists(&c);
    assert_eq!(all.iter().map(|r| r.name.as_str()).collect::<Vec<_>>(), vec!["A", "B", "B"]);
    assert_eq!(soniccave::queries::get_artist_by_id(&c, a).unwrap().name, "A");
    assert!(soniccave::queries::get_artist_by_id(&c, 99).is_none());
    let found = soniccave::queries::get_artist_by_name(&c, &"B".to_string()).unwrap();
    assert_eq!(found.id, b);
    assert_eq!(found.album_count, 1);
    assert!(soniccave::queries::get_artist_by_name(&c, &"C".to_string()).is_none());
    let album_row = soniccave::queries::get_album_by_id(&c, x).unwrap();
    assert_eq!((album_row.artist_id, album_row.year, album_row.song_count), (b, 1999, 1));
    assert!(soniccave::queries::get_album_by_id(&c, a).is_none());
    let song_row = soniccave::queries::get_song_by_id(&c, s).unwrap();
    assert_eq!((song_row.album_id, song_row.path.as_str()), (x, "p"));
    assert!(soniccave::queries::get_song_by_id(&c, x).is_none());
}

#[test]
fn tree_with_a_path_twice_is_not_well_formed() {
    let good = parse(&vec![record("A", "X", 1, "one"), record("A", "X", 1, "two")]);
    assert!(good.is_well_formed());
    assert!(good.artists[0].is_well_formed());
    assert!(good.artists[0].albums[0].is_well_formed());
    let twice = parse(&vec![record("A", "X", 1, "one"), record("A", "X", 1, "one")]);
    assert!(!twice.is_well_formed());
    assert!(!twice.artists[0].albums[0].is_well_formed());
    let mut names = parse(&vec![record("A", "X", 1, "one"), record("B", "X", 1, "two")]);
    names.artists[1].artist.name = "A".to_string();
    assert!(!names.is_well_formed());
    assert!(DiskTree::new().is_well_formed());
}
