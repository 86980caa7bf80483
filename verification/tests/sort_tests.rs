use ferrum_core::data::{get_track_ids, Data};
use ferrum_core::error::LibError;
use ferrum_core::library::{Library, Paths};
use ferrum_core::num64::{is_nan_bits, le_bits};
use ferrum_core::playlists::{add_tracks, get_page_ids, new_playlist, remove_from_open};
use ferrum_core::sort::sort;
use ferrum_core::track::{get_track_field_type, Track, TrackField};
use ferrum_core::tracklist::TrackList;
use ferrum_core::view_options::ViewOptions;

fn mk_track(file: &str, date_added: i64) -> Track {
    Track {
        size: 1000,
        duration: (180.5f64).to_bits(),
        bitrate: (320.0f64).to_bits(),
        sample_rate: (44100.0f64).to_bits(),
        file: file.to_string(),
        date_modified: date_added,
        date_added,
        name: None,
        imported_from: None,
        original_id: None,
        artist: None,
        composer: None,
        sort_name: None,
        sort_artist: None,
        sort_composer: None,
        genre: None,
        rating: None,
        year: None,
        bpm: None,
        comments: None,
        grouping: None,
        liked: None,
        disliked: None,
        disabled: None,
        compilation: None,
        album_name: None,
        album_artist: None,
        sort_album_name: None,
        sort_album_artist: None,
        track_num: None,
        track_count: None,
        disc_num: None,
        disc_count: None,
        date_imported: None,
        play_count: None,
        plays: None,
        plays_imported: None,
        skip_count: None,
        skips: None,
        skips_imported: None,
        volume: None,
    }
}

fn mk_paths() -> Paths {
    Paths {
        library_dir: "/tmp/lib".to_string(),
        tracks_dir: "/tmp/lib/Tracks".to_string(),
        artworks_dir: "/tmp/lib/Artworks".to_string(),
        library_json: "/tmp/lib/Library.json".to_string(),
        cache_dir: "/tmp/cache".to_string(),
        cache_db: "/tmp/cache/Cache.redb".to_string(),
        local_data_dir: "/tmp/local".to_string(),
    }
}

/// A library with one playlist of four tracks whose names exercise the
/// text ordering, and a view opened on that playlist in natural order.
fn mk_data() -> (Data, String) {
    let mut lib = Library::bootstrap(0);
    let pid = new_playlist(
        &mut lib,
        "P".to_string(),
        "".to_string(),
        false,
        &"root".to_string(),
        1,
    )
    .unwrap();
    let names = [("a", Some("B2"), 10), ("b", Some("B10"), 40), ("c", None, 30), ("d", Some(""), 20)];
    for (id, name, added) in names {
        let mut t = mk_track(&format!("{id}.mp3"), added);
        t.name = name.map(|s| s.to_string());
        t.rating = match id {
            "a" => Some(3),
            "b" => Some(1),
            _ => None,
        };
        t.liked = match id {
            "c" => Some(true),
            _ => None,
        };
        t.duration = match id {
            "a" => (10.5f64).to_bits(),
            "b" => (2.25f64).to_bits(),
            "c" => (-1.0f64).to_bits(),
            _ => (0.0f64).to_bits(),
        };
        lib.tracks.insert_new(id.to_string(), t);
    }
    add_tracks(
        &mut lib,
        &pid,
        vec!["a".to_string(), "b".to_string(), "c".to_string(), "d".to_string()],
    )
    .unwrap();
    let mut data = Data {
        paths: mk_paths(),
        library: lib,
        view_options: ViewOptions::empty_defaults(),
        open_playlist_track_ids: Vec::new(),
        page_track_ids: None,
        open_playlist_id: pid.clone(),
        filter: String::new(),
        sort_key: "index".to_string(),
        sort_desc: true,
        group_album_tracks: true,
    };
    data.open_playlist_track_ids = get_track_ids(&data.library, &pid).unwrap();
    (data, pid)
}

#[test]
fn text_sort_is_numeric_aware_with_empties_last() {
    let (mut data, _) = mk_data();
    sort(&mut data, "name").unwrap();
    // "B2" before "B10", the absent and the empty name last, in their
    // original relative order
    assert_eq!(data.open_playlist_track_ids, vec!["a", "b", "c", "d"]);
    assert_eq!(data.sort_key, "name");
    assert!(!data.sort_desc);
}

#[test]
fn sorting_twice_by_the_same_key_reverses() {
    let (mut data, _) = mk_data();
    sort(&mut data, "name").unwrap();
    let first = data.open_playlist_track_ids.clone();
    let desc_first = data.sort_desc;
    sort(&mut data, "name").unwrap();
    let mut reversed = first.clone();
    reversed.reverse();
    assert_eq!(data.open_playlist_track_ids, reversed);
    assert_eq!(data.sort_desc, !desc_first);
    assert_eq!(data.sort_key, "name");
}

#[test]
fn index_sort_restores_the_manual_order() {
    let (mut data, _) = mk_data();
    sort(&mut data, "dateAdded").unwrap();
    assert_ne!(data.open_playlist_track_ids, vec!["a", "b", "c", "d"]);
    sort(&mut data, "index").unwrap();
    assert_eq!(data.open_playlist_track_ids, vec!["a", "b", "c", "d"]);
    assert_eq!(data.sort_key, "index");
    assert!(data.sort_desc);
}

#[test]
fn date_added_sorts_newest_first() {
    let (mut data, _) = mk_data();
    sort(&mut data, "dateAdded").unwrap();
    assert_eq!(data.open_playlist_track_ids, vec!["b", "c", "d", "a"]);
    assert!(data.sort_desc);
}

#[test]
fn duration_sorts_by_numeric_value_descending() {
    let (mut data, _) = mk_data();
    sort(&mut data, "duration").unwrap();
    // 10.5, 2.25, 0.0, -1.0
    assert_eq!(data.open_playlist_track_ids, vec!["a", "b", "d", "c"]);
    assert!(data.sort_desc);
}

#[test]
fn rating_sorts_descending_with_absent_as_zero() {
    let (mut data, _) = mk_data();
    sort(&mut data, "rating").unwrap();
    // 3, 1, 0, 0 — the two unrated keep their relative order
    assert_eq!(data.open_playlist_track_ids, vec!["a", "b", "d", "c"]);
}

#[test]
fn liked_sorts_true_first_when_descending() {
    let (mut data, _) = mk_data();
    sort(&mut data, "liked").unwrap();
    assert_eq!(data.open_playlist_track_ids[0], "c");
}

#[test]
fn index_sort_on_a_folder_changes_nothing() {
    let (mut data, _) = mk_data();
    data.open_playlist_id = "root".to_string();
    data.sort_key = "dateAdded".to_string();
    let before = data.open_playlist_track_ids.clone();
    sort(&mut data, "index").unwrap();
    assert_eq!(data.open_playlist_track_ids, before);
    assert_eq!(data.sort_key, "dateAdded");
}

#[test]
fn index_sort_with_unknown_open_id_fails() {
    let (mut data, _) = mk_data();
    data.open_playlist_id = "ghost".to_string();
    data.sort_key = "name".to_string();
    let r = sort(&mut data, "index");
    assert_eq!(r.unwrap_err(), LibError::PlaylistIdNotFound);
}

#[test]
fn binary64_bit_order_matches_numeric_order() {
    assert!(le_bits((1.5f64).to_bits(), (2.5f64).to_bits()));
    assert!(!le_bits((2.5f64).to_bits(), (1.5f64).to_bits()));
    assert!(le_bits((-3.0f64).to_bits(), (1.0f64).to_bits()));
    assert!(le_bits((-3.0f64).to_bits(), (-2.0f64).to_bits()));
    // the two zero encodings compare equal
    assert!(le_bits((0.0f64).to_bits(), (-0.0f64).to_bits()));
    assert!(le_bits((-0.0f64).to_bits(), (0.0f64).to_bits()));
    assert!(is_nan_bits(f64::NAN.to_bits()));
    assert!(!is_nan_bits(f64::INFINITY.to_bits()));
}

#[test]
fn field_type_table_dispatches_by_name() {
    assert!(matches!(get_track_field_type("name"), Some(TrackField::String)));
    assert!(matches!(get_track_field_type("duration"), Some(TrackField::F64)));
    assert!(matches!(get_track_field_type("dateAdded"), Some(TrackField::I64)));
    assert!(matches!(get_track_field_type("playCount"), Some(TrackField::I32)));
    assert!(matches!(get_track_field_type("year"), Some(TrackField::I16)));
    assert!(matches!(get_track_field_type("rating"), Some(TrackField::U8)));
    assert!(matches!(get_track_field_type("liked"), Some(TrackField::Bool)));
    assert!(get_track_field_type("nonsense").is_none());
}

#[test]
fn remove_by_index_needs_the_natural_unfiltered_view() {
    let (mut data, pid) = mk_data();
    sort(&mut data, "dateAdded").unwrap();
    let before = match data.library.get_tracklist(&pid).unwrap() {
        TrackList::Playlist(p) => p.tracks.clone(),
        _ => panic!(),
    };
    let r = remove_from_open(&mut data, &vec![0]);
    assert_eq!(r.unwrap_err(), LibError::RemoveWhileSorted);
    match data.library.get_tracklist(&pid).unwrap() {
        TrackList::Playlist(p) => assert_eq!(p.tracks, before),
        _ => panic!(),
    }
    sort(&mut data, "index").unwrap();
    data.filter = "rock".to_string();
    let r2 = remove_from_open(&mut data, &vec![0]);
    assert_eq!(r2.unwrap_err(), LibError::RemoveWhileFiltered);
    data.filter = String::new();
    data.open_playlist_id = "root".to_string();
    let r3 = remove_from_open(&mut data, &vec![0]);
    assert_eq!(r3.unwrap_err(), LibError::CannotRemoveFromSpecial);
}

#[test]
fn remove_by_index_rejects_folders() {
    let (mut data, _) = mk_data();
    let fid = new_playlist(
        &mut data.library,
        "F".to_string(),
        "".to_string(),
        true,
        &"root".to_string(),
        1,
    )
    .unwrap();
    data.open_playlist_id = fid;
    let r = remove_from_open(&mut data, &vec![0]);
    assert_eq!(r.unwrap_err(), LibError::CannotRemoveFromFolder);
}

#[test]
fn remove_by_index_drops_exactly_the_listed_rows() {
    let (mut data, pid) = mk_data();
    // indices 1 and 3 of [a, b, c, d]; duplicates and wild indices are
    // ignored
    remove_from_open(&mut data, &vec![3, 1, 1, 9]).unwrap();
    match data.library.get_tracklist(&pid).unwrap() {
        TrackList::Playlist(p) => assert_eq!(p.tracks, vec!["a", "c"]),
        _ => panic!(),
    }
}

#[test]
fn page_tracks_fall_back_to_the_open_sequence() {
    let (mut data, _) = mk_data();
    assert_eq!(data.get_page_tracks().len(), 4);
    data.page_track_ids = Some(vec!["b".to_string()]);
    assert_eq!(data.get_page_tracks(), &vec!["b".to_string()]);
}

#[test]
fn page_indices_resolve_against_the_visible_page() {
    let (mut data, _) = mk_data();
    let ids = get_page_ids(&data, &vec![0, 2]).unwrap();
    assert_eq!(ids, vec!["a", "c"]);
    let r = get_page_ids(&data, &vec![7]);
    assert_eq!(r.unwrap_err(), LibError::TrackIndexNotFound);
    data.page_track_ids = Some(vec!["d".to_string()]);
    assert_eq!(get_page_ids(&data, &vec![0]).unwrap(), vec!["d"]);
}

#[test]
fn open_playlist_applies_the_default_sorts() {
    let (mut data, pid) = mk_data();
    data.open_playlist("root".to_string()).unwrap();
    // the special root shows everything, newest added first
    assert_eq!(data.open_playlist_id, "root");
    assert_eq!(data.sort_key, "dateAdded");
    assert!(data.sort_desc);
    assert_eq!(data.open_playlist_track_ids, vec!["b", "c", "d", "a"]);
    assert!(data.page_track_ids.is_none());
    data.open_playlist(pid.clone()).unwrap();
    assert_eq!(data.sort_key, "index");
    assert!(data.sort_desc);
    assert_eq!(data.open_playlist_track_ids, vec!["a", "b", "c", "d"]);
}

#[test]
fn open_playlist_rejects_unknown_ids_without_mutation() {
    let (mut data, pid) = mk_data();
    let before = data.open_playlist_track_ids.clone();
    let r = data.open_playlist("ghost".to_string());
    assert_eq!(r.unwrap_err(), LibError::TracklistNotFound);
    assert_eq!(data.open_playlist_id, pid);
    assert_eq!(data.open_playlist_track_ids, before);
}

#[test]
fn init_opens_the_root_newest_first() {
    let (data0, _) = mk_data();
    let data = Data::init(mk_paths(), data0.library, ViewOptions::empty_defaults()).unwrap();
    assert_eq!(data.open_playlist_id, "root");
    assert_eq!(data.sort_key, "dateAdded");
    assert!(data.sort_desc);
    assert_eq!(data.open_playlist_track_ids, vec!["b", "c", "d", "a"]);
    assert_eq!(data.filter, "");
    assert!(data.group_album_tracks);
}

#[test]
fn view_options_track_shown_folders() {
    let mut vo = ViewOptions::empty_defaults();
    vo.set_folder_shown(&"f1".to_string(), true);
    vo.set_folder_shown(&"f2".to_string(), true);
    vo.set_folder_shown(&"f1".to_string(), true);
    assert_eq!(vo.shown_playlist_folders, vec!["f2", "f1"]);
    vo.set_folder_shown(&"f1".to_string(), false);
    assert_eq!(vo.shown_playlist_folders, vec!["f2"]);
}

#[test]
fn text_sort_reorders_numeric_runs() {
    // stored order is the reverse of the alphanumeric order, so a
    // comparison that judged everything equal would leave it unchanged
    let mut lib = Library::bootstrap(0);
    let pid = new_playlist(
        &mut lib,
        "P".to_string(),
        "".to_string(),
        false,
        &"root".to_string(),
        1,
    )
    .unwrap();
    for (id, name) in [("x", "shot-11"), ("y", "shot-2"), ("z", "shot-1")] {
        let mut t = mk_track(&format!("{id}.mp3"), 1);
        t.name = Some(name.to_string());
        lib.tracks.insert_new(id.to_string(), t);
    }
    add_tracks(&mut lib, &pid, vec!["x".to_string(), "y".to_string(), "z".to_string()])
        .unwrap();
    let mut data = Data {
        paths: mk_paths(),
        library: lib,
        view_options: ViewOptions::empty_defaults(),
        open_playlist_track_ids: vec!["x".to_string(), "y".to_string(), "z".to_string()],
        page_track_ids: None,
        open_playlist_id: pid,
        filter: String::new(),
        sort_key: "index".to_string(),
        sort_desc: true,
        group_album_tracks: true,
    };
    sort(&mut data, "name").unwrap();
    assert_eq!(data.open_playlist_track_ids, vec!["z", "y", "x"]);
}

#[test]
fn shown_folder_list_is_handed_out_as_a_copy() {
    let (mut data, _) = mk_data();
    data.view_options.set_folder_shown(&"f9".to_string(), true);
    assert_eq!(
        ferrum_core::view_options::shown_playlist_folders(&data),
        vec!["f9".to_string()]
    );
}

#[test]
fn folder_view_flattens_descendant_playlists() {
    let (data, _) = mk_data();
    let ids = get_track_ids(&data.library, &"root".to_string()).unwrap();
    assert_eq!(ids, vec!["a", "b", "c", "d"]);
}
