use ferrum_core::error::LibError;
use ferrum_core::library::Library;
use ferrum_core::playlists::{
    add_tracks, delete_track, filter_duplicates, get_children_if_user_editable, move_playlist,
    new_playlist, remove_from_all_playlists, sort_dedup_indexes, update_playlist,
};
use ferrum_core::tracklist::TrackList;
use ferrum_core::tree::get_all_tracklist_children;

use ferrum_core::track::Track;

fn mk_track(file: &str, date_added: i64) -> Track {
    Track {
        size: 1000,
        duration: (180.5f64).to_bits(),
        bitrate: (320.0f64).to_bits(),
        sample_rate: (44100.0f64).to_bits(),
        file: file.to_string(),
        date_modified: date_added,
        date_added,
        name: None,
        imported_from: None,
        original_id: None,
        artist: None,
        composer: None,
        sort_name: None,
        sort_artist: None,
        sort_composer: None,
        genre: None,
        rating: None,
        year: None,
        bpm: None,
        comments: None,
        grouping: None,
        liked: None,
        disliked: None,
        disabled: None,
        compilation: None,
        album_name: None,
        album_artist: None,
        sort_album_name: None,
        sort_album_artist: None,
        track_num: None,
        track_count: None,
        disc_num: None,
        disc_count: None,
        date_imported: None,
        play_count: None,
        plays: None,
        plays_imported: None,
        skip_count: None,
        skips: None,
        skips_imported: None,
        volume: None,
    }
}

fn playlist_tracks(lib: &Library, id: &String) -> Vec<String> {
    match lib.get_tracklist(id).unwrap() {
        TrackList::Playlist(p) => p.tracks.clone(),
        _ => panic!("not a playlist"),
    }
}

fn catalog_ids(lib: &Library) -> Vec<String> {
    lib.tracks.entries.iter().map(|e| e.0.clone()).collect()
}

fn tracklist_ids(lib: &Library) -> Vec<String> {
    lib.track_lists.entries.iter().map(|e| e.0.clone()).collect()
}

#[test]
fn bootstrap_has_only_the_root() {
    let lib = Library::bootstrap(77);
    assert_eq!(lib.track_lists.entries.len(), 1);
    let root = lib.get_tracklist(&"root".to_string()).unwrap();
    match root {
        TrackList::Special(s) => {
            assert_eq!(s.id, "root");
            assert_eq!(s.date_created, 77);
            assert!(s.children.is_empty());
        }
        _ => panic!("root must be special"),
    }
    assert!(lib.tracks.entries.is_empty());
}

#[test]
fn new_playlist_attaches_under_root() {
    let mut lib = Library::bootstrap(0);
    let id = new_playlist(
        &mut lib,
        "Jazz".to_string(),
        "notes".to_string(),
        false,
        &"root".to_string(),
        5,
    )
    .unwrap();
    match lib.get_tracklist(&id).unwrap() {
        TrackList::Playlist(p) => {
            assert_eq!(p.name, "Jazz");
            assert_eq!(p.description.as_deref(), Some("notes"));
            assert_eq!(p.date_created, 5);
            assert!(p.tracks.is_empty());
        }
        _ => panic!("expected a playlist"),
    }
    match lib.get_tracklist(&"root".to_string()).unwrap() {
        TrackList::Special(s) => assert_eq!(s.children, vec![id.clone()]),
        _ => panic!(),
    }
}

#[test]
fn new_playlist_empty_description_becomes_absent() {
    let mut lib = Library::bootstrap(0);
    let id = new_playlist(
        &mut lib,
        "NoDesc".to_string(),
        "".to_string(),
        false,
        &"root".to_string(),
        5,
    )
    .unwrap();
    match lib.get_tracklist(&id).unwrap() {
        TrackList::Playlist(p) => assert!(p.description.is_none()),
        _ => panic!(),
    }
}

#[test]
fn new_folder_and_nested_playlist() {
    let mut lib = Library::bootstrap(0);
    let fid = new_playlist(
        &mut lib,
        "Folder".to_string(),
        "".to_string(),
        true,
        &"root".to_string(),
        1,
    )
    .unwrap();
    let pid = new_playlist(&mut lib, "Inner".to_string(), "".to_string(), false, &fid, 2)
        .unwrap();
    match lib.get_tracklist(&fid).unwrap() {
        TrackList::Folder(f) => assert_eq!(f.children, vec![pid.clone()]),
        _ => panic!("expected a folder"),
    }
}

#[test]
fn new_playlist_rejects_playlist_parent_and_unknown_parent() {
    let mut lib = Library::bootstrap(0);
    let pid = new_playlist(
        &mut lib,
        "P".to_string(),
        "".to_string(),
        false,
        &"root".to_string(),
        1,
    )
    .unwrap();
    let before = tracklist_ids(&lib);
    let r = new_playlist(&mut lib, "X".to_string(), "".to_string(), false, &pid, 2);
    assert_eq!(r.unwrap_err(), LibError::ParentIsPlaylist);
    let r2 = new_playlist(
        &mut lib,
        "X".to_string(),
        "".to_string(),
        false,
        &"ghost".to_string(),
        2,
    );
    assert_eq!(r2.unwrap_err(), LibError::ParentNotFound);
    assert_eq!(tracklist_ids(&lib), before);
}

#[test]
fn update_playlist_renames_and_respects_special() {
    let mut lib = Library::bootstrap(0);
    let pid = new_playlist(
        &mut lib,
        "Old".to_string(),
        "d".to_string(),
        false,
        &"root".to_string(),
        1,
    )
    .unwrap();
    update_playlist(&mut lib, &pid, "New".to_string(), "".to_string()).unwrap();
    match lib.get_tracklist(&pid).unwrap() {
        TrackList::Playlist(p) => {
            assert_eq!(p.name, "New");
            assert!(p.description.is_none());
        }
        _ => panic!(),
    }
    let r = update_playlist(
        &mut lib,
        &"root".to_string(),
        "Nope".to_string(),
        "".to_string(),
    );
    assert_eq!(r.unwrap_err(), LibError::CannotEditSpecial);
    let r2 = update_playlist(
        &mut lib,
        &"ghost".to_string(),
        "Nope".to_string(),
        "".to_string(),
    );
    assert_eq!(r2.unwrap_err(), LibError::PlaylistNotFound);
}

#[test]
fn add_tracks_appends_and_rejects_wrong_kinds() {
    let mut lib = Library::bootstrap(0);
    lib.tracks.insert_new("t1".to_string(), mk_track("t1.mp3", 1));
    lib.tracks.insert_new("t2".to_string(), mk_track("t2.mp3", 2));
    lib.tracks.insert_new("t3".to_string(), mk_track("t3.mp3", 3));
    let pid = new_playlist(
        &mut lib,
        "P".to_string(),
        "".to_string(),
        false,
        &"root".to_string(),
        1,
    )
    .unwrap();
    let fid = new_playlist(
        &mut lib,
        "F".to_string(),
        "".to_string(),
        true,
        &"root".to_string(),
        1,
    )
    .unwrap();
    add_tracks(&mut lib, &pid, vec!["t1".to_string(), "t2".to_string()]).unwrap();
    add_tracks(&mut lib, &pid, vec!["t1".to_string()]).unwrap();
    assert_eq!(playlist_tracks(&lib, &pid), vec!["t1", "t2", "t1"]);
    let r = add_tracks(&mut lib, &fid, vec!["t3".to_string()]);
    assert_eq!(r.unwrap_err(), LibError::CannotAddToFolder);
    let r2 = add_tracks(&mut lib, &"root".to_string(), vec!["t3".to_string()]);
    assert_eq!(r2.unwrap_err(), LibError::CannotAddToSpecial);
    let r3 = add_tracks(&mut lib, &"ghost".to_string(), vec!["t3".to_string()]);
    assert_eq!(r3.unwrap_err(), LibError::TracklistNotFound);
}

#[test]
fn filter_duplicates_keeps_only_unknown_ids() {
    let mut lib = Library::bootstrap(0);
    lib.tracks.insert_new("a".to_string(), mk_track("a.mp3", 1));
    lib.tracks.insert_new("b".to_string(), mk_track("b.mp3", 2));
    let pid = new_playlist(
        &mut lib,
        "P".to_string(),
        "".to_string(),
        false,
        &"root".to_string(),
        1,
    )
    .unwrap();
    add_tracks(&mut lib, &pid, vec!["a".to_string(), "b".to_string()]).unwrap();
    let r = filter_duplicates(
        &lib,
        &pid,
        vec![
            "a".to_string(),
            "c".to_string(),
            "c".to_string(),
            "d".to_string(),
            "b".to_string(),
        ],
    )
    .unwrap();
    assert_eq!(r, vec!["c".to_string(), "d".to_string()]);
    let r2 = filter_duplicates(&lib, &"root".to_string(), vec!["a".to_string()]);
    assert_eq!(r2.unwrap_err(), LibError::NonPlaylistDuplicateCheck);
}

#[test]
fn transitive_children_walks_the_whole_subtree() {
    let mut lib = Library::bootstrap(0);
    let f1 = new_playlist(
        &mut lib,
        "F1".to_string(),
        "".to_string(),
        true,
        &"root".to_string(),
        1,
    )
    .unwrap();
    let f2 = new_playlist(&mut lib, "F2".to_string(), "".to_string(), true, &f1, 1).unwrap();
    let p1 = new_playlist(&mut lib, "P1".to_string(), "".to_string(), false, &f2, 1).unwrap();
    let p2 = new_playlist(&mut lib, "P2".to_string(), "".to_string(), false, &f1, 1).unwrap();
    let mut kids = get_all_tracklist_children(&lib, &f1).unwrap();
    kids.sort();
    let mut expect = vec![f2.clone(), p1.clone(), p2.clone()];
    expect.sort();
    assert_eq!(kids, expect);
    assert!(get_all_tracklist_children(&lib, &p1).unwrap().is_empty());
    let from_root = get_all_tracklist_children(&lib, &"root".to_string()).unwrap();
    assert_eq!(from_root.len(), 4);
}

#[test]
fn move_playlist_reattaches_a_list() {
    let mut lib = Library::bootstrap(0);
    let f1 = new_playlist(
        &mut lib,
        "F1".to_string(),
        "".to_string(),
        true,
        &"root".to_string(),
        1,
    )
    .unwrap();
    let p1 = new_playlist(
        &mut lib,
        "P1".to_string(),
        "".to_string(),
        false,
        &"root".to_string(),
        1,
    )
    .unwrap();
    move_playlist(&mut lib, &p1, &"root".to_string(), &f1).unwrap();
    match lib.get_tracklist(&"root".to_string()).unwrap() {
        TrackList::Special(s) => assert_eq!(s.children, vec![f1.clone()]),
        _ => panic!(),
    }
    match lib.get_tracklist(&f1).unwrap() {
        TrackList::Folder(f) => assert_eq!(f.children, vec![p1.clone()]),
        _ => panic!(),
    }
}

#[test]
fn move_into_own_child_is_rejected_without_mutation() {
    let mut lib = Library::bootstrap(0);
    let a = new_playlist(
        &mut lib,
        "A".to_string(),
        "".to_string(),
        true,
        &"root".to_string(),
        1,
    )
    .unwrap();
    let b = new_playlist(&mut lib, "B".to_string(), "".to_string(), true, &a, 1).unwrap();
    let root_before = match lib.get_tracklist(&"root".to_string()).unwrap() {
        TrackList::Special(s) => s.children.clone(),
        _ => panic!(),
    };
    let r = move_playlist(&mut lib, &a, &"root".to_string(), &b);
    assert_eq!(r.unwrap_err(), LibError::MoveIntoDescendant);
    match lib.get_tracklist(&"root".to_string()).unwrap() {
        TrackList::Special(s) => assert_eq!(s.children, root_before),
        _ => panic!(),
    }
    match lib.get_tracklist(&a).unwrap() {
        TrackList::Folder(f) => assert_eq!(f.children, vec![b.clone()]),
        _ => panic!(),
    }
}

#[test]
fn move_rejects_special_and_bad_endpoints() {
    let mut lib = Library::bootstrap(0);
    let p = new_playlist(
        &mut lib,
        "P".to_string(),
        "".to_string(),
        false,
        &"root".to_string(),
        1,
    )
    .unwrap();
    let r = move_playlist(&mut lib, &"root".to_string(), &"root".to_string(), &p);
    assert_eq!(r.unwrap_err(), LibError::CannotMoveSpecial);
    let r2 = move_playlist(&mut lib, &p, &"root".to_string(), &p);
    assert_eq!(r2.unwrap_err(), LibError::MoveEndpointNotFolder);
    let r3 = move_playlist(&mut lib, &p, &"root".to_string(), &"ghost".to_string());
    assert_eq!(r3.unwrap_err(), LibError::MoveEndpointMissing);
    let r4 = move_playlist(&mut lib, &"ghost".to_string(), &"root".to_string(), &p);
    assert_eq!(r4.unwrap_err(), LibError::ListNotFound);
}

#[test]
fn children_query_distinguishes_editable_containers() {
    let mut lib = Library::bootstrap(0);
    let p = new_playlist(
        &mut lib,
        "P".to_string(),
        "".to_string(),
        false,
        &"root".to_string(),
        1,
    )
    .unwrap();
    assert!(get_children_if_user_editable(&lib, &"root".to_string()).is_ok());
    assert_eq!(
        get_children_if_user_editable(&lib, &p).unwrap_err(),
        LibError::MoveEndpointNotFolder
    );
    assert_eq!(
        get_children_if_user_editable(&lib, &"ghost".to_string()).unwrap_err(),
        LibError::MoveEndpointMissing
    );
}

#[test]
fn delete_track_clears_catalog_before_any_file_step() {
    let mut lib = Library::bootstrap(0);
    let p1 = new_playlist(
        &mut lib,
        "P1".to_string(),
        "".to_string(),
        false,
        &"root".to_string(),
        1,
    )
    .unwrap();
    let p2 = new_playlist(
        &mut lib,
        "P2".to_string(),
        "".to_string(),
        false,
        &"root".to_string(),
        1,
    )
    .unwrap();
    lib.tracks.insert_new("doomed".to_string(), mk_track("doomed.mp3", 1));
    lib.tracks.insert_new("keeper".to_string(), mk_track("keeper.mp3", 2));
    add_tracks(&mut lib, &p1, vec!["doomed".to_string(), "keeper".to_string()]).unwrap();
    add_tracks(&mut lib, &p2, vec!["doomed".to_string(), "doomed".to_string()]).unwrap();
    delete_track(&mut lib, &"doomed".to_string());
    // even if moving the file to the trash fails afterwards, the catalog
    // is already clean: no dangling reference can survive
    assert_eq!(catalog_ids(&lib), vec!["keeper"]);
    assert_eq!(playlist_tracks(&lib, &p1), vec!["keeper"]);
    assert!(playlist_tracks(&lib, &p2).is_empty());
}

#[test]
fn remove_from_all_playlists_touches_every_list() {
    let mut lib = Library::bootstrap(0);
    lib.tracks.insert_new("x".to_string(), mk_track("x.mp3", 1));
    lib.tracks.insert_new("y".to_string(), mk_track("y.mp3", 2));
    let p1 = new_playlist(
        &mut lib,
        "P1".to_string(),
        "".to_string(),
        false,
        &"root".to_string(),
        1,
    )
    .unwrap();
    add_tracks(
        &mut lib,
        &p1,
        vec!["x".to_string(), "y".to_string(), "x".to_string()],
    )
    .unwrap();
    remove_from_all_playlists(&mut lib, &"x".to_string());
    assert_eq!(playlist_tracks(&lib, &p1), vec!["y"]);
}

#[test]
fn sort_dedup_indexes_orders_and_dedups() {
    let r = sort_dedup_indexes(&vec![3, 1, 3, 2, 1]);
    assert_eq!(r, vec![1, 2, 3]);
    let empty: Vec<u32> = Vec::new();
    assert_eq!(sort_dedup_indexes(&empty), empty);
}

#[test]
fn add_tracks_rejects_ids_missing_from_the_catalog() {
    let mut lib = Library::bootstrap(0);
    lib.tracks.insert_new("known".to_string(), mk_track("known.mp3", 1));
    let pid = new_playlist(
        &mut lib,
        "P".to_string(),
        "".to_string(),
        false,
        &"root".to_string(),
        1,
    )
    .unwrap();
    let r = add_tracks(
        &mut lib,
        &pid,
        vec!["known".to_string(), "phantom".to_string()],
    );
    assert_eq!(r.unwrap_err(), LibError::TrackNotFound);
    assert!(playlist_tracks(&lib, &pid).is_empty());
}

#[test]
fn moving_a_folder_under_itself_is_rejected() {
    let mut lib = Library::bootstrap(0);
    let a = new_playlist(
        &mut lib,
        "A".to_string(),
        "".to_string(),
        true,
        &"root".to_string(),
        1,
    )
    .unwrap();
    let r = move_playlist(&mut lib, &a, &"root".to_string(), &a);
    assert_eq!(r.unwrap_err(), LibError::MoveIntoDescendant);
    match lib.get_tracklist(&a).unwrap() {
        TrackList::Folder(f) => assert!(f.children.is_empty()),
        _ => panic!(),
    }
    match lib.get_tracklist(&"root".to_string()).unwrap() {
        TrackList::Special(s) => assert_eq!(s.children, vec![a.clone()]),
        _ => panic!(),
    }
}

#[test]
fn move_needs_the_child_to_sit_under_the_source() {
    let mut lib = Library::bootstrap(0);
    let f1 = new_playlist(
        &mut lib,
        "F1".to_string(),
        "".to_string(),
        true,
        &"root".to_string(),
        1,
    )
    .unwrap();
    let f2 = new_playlist(
        &mut lib,
        "F2".to_string(),
        "".to_string(),
        true,
        &"root".to_string(),
        1,
    )
    .unwrap();
    let p = new_playlist(&mut lib, "P".to_string(), "".to_string(), false, &f1, 1).unwrap();
    let r = move_playlist(&mut lib, &p, &f2, &"root".to_string());
    assert_eq!(r.unwrap_err(), LibError::MoveSourceMissingChild);
    match lib.get_tracklist(&f1).unwrap() {
        TrackList::Folder(f) => assert_eq!(f.children, vec![p.clone()]),
        _ => panic!(),
    }
}

#[test]
fn unknown_track_lookups_fail() {
    let lib = Library::bootstrap(0);
    assert_eq!(
        lib.get_track(&"ghost".to_string()).unwrap_err(),
        LibError::TrackNotFound
    );
    assert_eq!(
        lib.get_tracklist(&"ghost".to_string()).unwrap_err(),
        LibError::TracklistNotFound
    );
}

#[test]
fn error_messages_match_the_host_wording() {
    assert_eq!(
        LibError::MoveIntoDescendant.message(),
        "Cannot move playlist to a child of itself"
    );
    assert_eq!(
        LibError::RemoveWhileSorted.message(),
        "Cannot remove track when custom sorting is used"
    );
    assert_eq!(LibError::ParentNotFound.message(), "Parent not found");
}

#[test]
fn str_to_option_treats_empty_as_absent() {
    assert_eq!(ferrum_core::str_to_option("".to_string()), None);
    assert_eq!(
        ferrum_core::str_to_option("x".to_string()),
        Some("x".to_string())
    );
}
