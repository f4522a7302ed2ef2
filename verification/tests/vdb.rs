use gonk::song::{parse_u16, Song, Tag, TagKind};
use gonk::vdb::{fix, get_all_albums, get_all_albums_by_artist, get_all_artists, get_all_songs,
    get_all_songs_from_album, get_song, get_songs_by_artist, get_songs_from_id, sync_changes,
    MinSong};

fn song(artist: &str, album: &str, name: &str) -> Song {
    Song {
        number: 1,
        disc: 1,
        name: name.to_string(),
        album: album.to_string(),
        artist: artist.to_string(),
        path: format!("/music/{artist}/{album}/{name}.flac"),
    }
}

#[test]
fn fix_escapes_quotes() {
    assert_eq!(fix("it's"), "it''s");
    assert_eq!(fix("'"), "''");
    assert_eq!(fix("''"), "''''");
    assert_eq!(fix("no quotes"), "no quotes");
    assert_eq!(fix(""), "");
}

#[test]
fn artists_are_distinct_and_sorted() {
    let songs = vec![
        song("Beta", "One", "a"),
        song("Alpha", "Two", "b"),
        song("Beta", "Three", "c"),
        song("Gamma", "Four", "d"),
        song("Alpha", "Two", "e"),
    ];
    assert_eq!(get_all_artists(&songs), vec!["Alpha", "Beta", "Gamma"]);
    assert_eq!(get_all_artists(&Vec::new()), Vec::<String>::new());
}

#[test]
fn artists_sort_case_insensitively() {
    // By code points "Beta" would come first; the collation folds case.
    let songs = vec![song("alpha", "One", "a"), song("Beta", "Two", "b")];
    assert_eq!(get_all_artists(&songs), vec!["alpha", "Beta"]);

    // Names equal once folded keep the order of their first songs.
    let songs = vec![song("aa", "One", "a"), song("AA", "Two", "b")];
    assert_eq!(get_all_artists(&songs), vec!["aa", "AA"]);
}

#[test]
fn albums_by_artist_are_filtered_distinct_and_sorted() {
    let songs = vec![
        song("Beta", "one", "a"),
        song("Alpha", "Two", "b"),
        song("Beta", "Three", "c"),
        song("Beta", "one", "d"),
    ];
    // By code points "Three" would come before "one"; the collation folds case.
    assert_eq!(get_all_albums_by_artist(&songs, "Beta"), vec!["one", "Three"]);
    assert_eq!(get_all_albums_by_artist(&songs, "Alpha"), vec!["Two"]);
    assert_eq!(get_all_albums_by_artist(&songs, "Nobody"), Vec::<String>::new());
}

#[test]
fn albums_pair_each_album_with_its_artist_sorted_by_artist() {
    let songs = vec![
        song("beta", "One", "a"),
        song("Alpha", "One", "b"),
        song("beta", "One", "c"),
    ];
    let pairs = get_all_albums(&songs);
    assert_eq!(
        pairs,
        vec![
            ("One".to_string(), "Alpha".to_string()),
            ("One".to_string(), "beta".to_string()),
        ]
    );
}

#[test]
fn all_songs_carry_their_row_ids() {
    let songs = vec![song("A", "B", "c"), song("D", "E", "f")];
    let rows = get_all_songs(&songs);
    assert_eq!(rows.len(), 2);
    assert_eq!(rows[0].0, 0);
    assert_eq!(rows[1].0, 1);
    assert_eq!(rows[0].1, songs[0]);
    assert_eq!(rows[1].1, songs[1]);
}

#[test]
fn songs_by_artist_are_ordered_by_album_disc_and_number() {
    let mut songs = vec![
        song("Beta", "Three", "d"),
        song("Alpha", "Two", "b"),
        song("Beta", "One", "c"),
        song("Beta", "One", "a"),
    ];
    songs[2].number = 2;
    songs[3].number = 1;
    let beta = get_songs_by_artist(&songs, "Beta");
    assert_eq!(beta, vec![songs[3].clone(), songs[2].clone(), songs[0].clone()]);
    assert_eq!(get_songs_by_artist(&songs, "Nobody"), Vec::<Song>::new());
}

#[test]
fn songs_from_album_are_ordered_by_disc_and_number() {
    let mut songs = vec![
        song("Beta", "One", "c"),
        song("Beta", "One", "a"),
        song("Beta", "One", "e"),
        song("Beta", "Two", "f"),
    ];
    songs[0].disc = 2;
    songs[0].number = 1;
    songs[1].disc = 1;
    songs[1].number = 2;
    songs[2].disc = 1;
    songs[2].number = 1;
    let one = get_all_songs_from_album(&songs, "One", "Beta");
    assert_eq!(one, vec![songs[2].clone(), songs[1].clone(), songs[0].clone()]);
    assert_eq!(get_all_songs_from_album(&songs, "Gone", "Beta"), Vec::<Song>::new());
}

#[test]
fn get_song_matches_number_and_name() {
    let mut songs = vec![song("Beta", "One", "a"), song("Beta", "One", "b")];
    songs[1].number = 2;
    assert_eq!(get_song(&songs, &(2, "b".to_string()), "One", "Beta"), vec![songs[1].clone()]);
    assert_eq!(get_song(&songs, &(1, "b".to_string()), "One", "Beta"), Vec::<Song>::new());
    assert_eq!(get_song(&songs, &(2, "b".to_string()), "Two", "Beta"), Vec::<Song>::new());
}

#[test]
fn songs_from_id_skip_missing_rows() {
    let songs = vec![song("A", "B", "c"), song("D", "E", "f")];
    let picked = get_songs_from_id(&songs, &[1, 9, 0, 1]);
    assert_eq!(picked, vec![songs[1].clone(), songs[0].clone(), songs[1].clone()]);
}

#[test]
fn sync_changes_split_stored_and_configured() {
    let stored = vec!["/a".to_string(), "/b".to_string(), "/c".to_string()];
    let configured = vec!["/b".to_string(), "/d".to_string()];
    let (to_forget, to_scan) = sync_changes(&stored, &configured);
    assert_eq!(to_forget, vec!["/a", "/c"]);
    assert_eq!(to_scan, vec!["/d"]);
}

#[test]
fn parse_u16_accepts_decimal_numerals() {
    assert_eq!(parse_u16("0"), Some(0));
    assert_eq!(parse_u16("7"), Some(7));
    assert_eq!(parse_u16("65535"), Some(65535));
    assert_eq!(parse_u16("+12"), Some(12));
    assert_eq!(parse_u16("0000000001"), Some(1));
}

#[test]
fn parse_u16_rejects_everything_else() {
    assert_eq!(parse_u16(""), None);
    assert_eq!(parse_u16("+"), None);
    assert_eq!(parse_u16("65536"), None);
    assert_eq!(parse_u16("99999999999999999999"), None);
    assert_eq!(parse_u16("12a"), None);
    assert_eq!(parse_u16("-1"), None);
    assert_eq!(parse_u16(" 7"), None);
}

fn tag(kind: TagKind, value: &str) -> Tag {
    Tag { kind, value: value.to_string() }
}

#[test]
fn from_tags_builds_the_song() {
    let tags = vec![
        tag(TagKind::TrackTitle, "Song Title"),
        tag(TagKind::Album, "The Album"),
        tag(TagKind::Artist, "The Artist"),
        tag(TagKind::TrackNumber, "3"),
        tag(TagKind::DiscNumber, "2"),
        tag(TagKind::Other, "ignored"),
    ];
    let song = Song::from_tags("/music/x.flac".to_string(), &tags).unwrap();
    assert_eq!(song.name, "Song Title");
    assert_eq!(song.album, "The Album");
    assert_eq!(song.artist, "The Artist");
    assert_eq!(song.number, 3);
    assert_eq!(song.disc, 2);
    assert_eq!(song.path, "/music/x.flac");
}

#[test]
fn from_tags_album_artist_wins() {
    // An album artist seen first is not overwritten by a plain artist.
    let tags = vec![tag(TagKind::AlbumArtist, "Band"), tag(TagKind::Artist, "Guest")];
    assert_eq!(Song::from_tags(String::new(), &tags).unwrap().artist, "Band");

    // A plain artist seen first gives way to a later album artist.
    let tags = vec![tag(TagKind::Artist, "Guest"), tag(TagKind::AlbumArtist, "Band")];
    assert_eq!(Song::from_tags(String::new(), &tags).unwrap().artist, "Band");
}

#[test]
fn from_tags_defaults_bad_numbers_to_one() {
    let tags = vec![
        tag(TagKind::Artist, "A"),
        tag(TagKind::TrackNumber, "not a number"),
        tag(TagKind::DiscNumber, "70000"),
    ];
    let song = Song::from_tags(String::new(), &tags).unwrap();
    assert_eq!(song.number, 1);
    assert_eq!(song.disc, 1);
}

#[test]
fn from_tags_needs_an_artist() {
    let tags = vec![tag(TagKind::TrackTitle, "Nameless")];
    assert!(Song::from_tags(String::new(), &tags).is_none());
    assert!(Song::from_tags(String::new(), &Vec::new()).is_none());
}

#[test]
fn song_equality_and_defaults() {
    let a = song("A", "B", "c");
    let b = a.clone();
    assert_eq!(a, b);
    let mut c = a.clone();
    c.number = 2;
    assert!(a != c);

    let d = Song::default();
    assert_eq!(d.number, 0);
    assert_eq!(d.disc, 0);
    assert_eq!(d.name, "");
    assert_eq!(d.album, "");
    assert_eq!(d.artist, "");
    assert_eq!(d.path, "");
}

#[test]
fn min_song_is_built_from_plain_fields() {
    let _entry = MinSong::new(
        "/music/a.flac".to_string(),
        "Album".to_string(),
        "Artist".to_string(),
        "Name".to_string(),
        4,
    );
}
