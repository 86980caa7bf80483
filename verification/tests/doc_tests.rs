use ferrum_core::doc::{
    build_library_doc, build_list_doc, build_track_doc, parse_library_doc, parse_list_doc,
    parse_track_doc, DocValue,
};
use ferrum_core::import::{
    extension_of, file_stem_of, generate_filename, resolve_year, sum_frame_bits, FileType,
};
use ferrum_core::library::{Library, PlayTime, Version};
use ferrum_core::num64::int_to_n64_bits;
use ferrum_core::playlists::{add_tracks, new_playlist};
use ferrum_core::track::{CountSpan, Track};
use ferrum_core::tracklist::TrackList;

fn mk_track(file: &str, date_added: i64) -> Track {
    Track {
        size: 1000,
        duration: (180.5f64).to_bits(),
        bitrate: (320.0f64).to_bits(),
        sample_rate: (44100.0f64).to_bits(),
        file: file.to_string(),
        date_modified: date_added,
        date_added,
        name: None,
        imported_from: None,
        original_id: None,
        artist: None,
        composer: None,
        sort_name: None,
        sort_artist: None,
        sort_composer: None,
        genre: None,
        rating: None,
        year: None,
        bpm: None,
        comments: None,
        grouping: None,
        liked: None,
        disliked: None,
        disabled: None,
        compilation: None,
        album_name: None,
        album_artist: None,
        sort_album_name: None,
        sort_album_artist: None,
        track_num: None,
        track_count: None,
        disc_num: None,
        disc_count: None,
        date_imported: None,
        play_count: None,
        plays: None,
        plays_imported: None,
        skip_count: None,
        skips: None,
        skips_imported: None,
        volume: None,
    }
}

fn full_track() -> Track {
    let mut t = mk_track("songs/one.mp3", 1700000000);
    t.name = Some("One".to_string());
    t.artist = Some("Band".to_string());
    t.genre = Some("Rock".to_string());
    t.rating = Some(80);
    t.year = Some(1999);
    t.bpm = Some((128.5f64).to_bits());
    t.liked = Some(true);
    t.compilation = Some(false);
    t.track_num = Some(3);
    t.play_count = Some(12);
    t.plays = Some(vec![1700000001, 1700000002]);
    t.plays_imported = Some(vec![CountSpan { count: 7, from_date: 10, to_date: 20 }]);
    t.skip_count = Some(1);
    t.skips = Some(vec![1700000003]);
    t.volume = Some(95);
    t
}

fn assert_tracks_eq(a: &Track, b: &Track) {
    assert_eq!(a.size, b.size);
    assert_eq!(a.duration, b.duration);
    assert_eq!(a.bitrate, b.bitrate);
    assert_eq!(a.sample_rate, b.sample_rate);
    assert_eq!(a.file, b.file);
    assert_eq!(a.date_modified, b.date_modified);
    assert_eq!(a.date_added, b.date_added);
    assert_eq!(a.name, b.name);
    assert_eq!(a.artist, b.artist);
    assert_eq!(a.genre, b.genre);
    assert_eq!(a.rating, b.rating);
    assert_eq!(a.year, b.year);
    assert_eq!(a.bpm, b.bpm);
    assert_eq!(a.liked, b.liked);
    assert_eq!(a.compilation, b.compilation);
    assert_eq!(a.track_num, b.track_num);
    assert_eq!(a.play_count, b.play_count);
    assert_eq!(a.plays, b.plays);
    assert_eq!(a.plays_imported, b.plays_imported);
    assert_eq!(a.skip_count, b.skip_count);
    assert_eq!(a.skips, b.skips);
    assert_eq!(a.skips_imported, b.skips_imported);
    assert_eq!(a.volume, b.volume);
}

#[test]
fn track_document_round_trips() {
    let t = full_track();
    let d = build_track_doc(&t);
    let back = parse_track_doc(&d).unwrap();
    assert_tracks_eq(&t, &back);
}

#[test]
fn sparse_track_document_round_trips() {
    let t = mk_track("two.opus", 5);
    let d = build_track_doc(&t);
    let back = parse_track_doc(&d).unwrap();
    assert_tracks_eq(&t, &back);
}

#[test]
fn malformed_track_documents_are_rejected() {
    assert!(parse_track_doc(&DocValue::Null).is_none());
    assert!(parse_track_doc(&DocValue::Obj(Vec::new())).is_none());
    // a document with the wrong leading key
    let t = mk_track("x.mp3", 1);
    let d = build_track_doc(&t);
    match d {
        DocValue::Obj(mut es) => {
            es[0].0 = "sizes".to_string();
            assert!(parse_track_doc(&DocValue::Obj(es)).is_none());
        }
        _ => panic!(),
    }
}

#[test]
fn integer_numbers_are_accepted_in_binary64_fields() {
    let t = mk_track("x.mp3", 1);
    let d = build_track_doc(&t);
    match d {
        DocValue::Obj(mut es) => {
            es[1].1 = DocValue::Int(180);
            es[2].1 = DocValue::Int(-3);
            es[3].1 = DocValue::Int(44100);
            es[18].1 = DocValue::Int(0);
            let back = parse_track_doc(&DocValue::Obj(es)).unwrap();
            assert_eq!(back.duration, (180.0f64).to_bits());
            assert_eq!(back.bitrate, (-3.0f64).to_bits());
            assert_eq!(back.sample_rate, (44100.0f64).to_bits());
            assert_eq!(back.bpm, Some((0.0f64).to_bits()));
        }
        _ => panic!(),
    }
    // an integer beyond the exactly representable range is rejected
    let d2 = build_track_doc(&t);
    match d2 {
        DocValue::Obj(mut es) => {
            es[1].1 = DocValue::Int(9007199254740992);
            assert!(parse_track_doc(&DocValue::Obj(es)).is_none());
        }
        _ => panic!(),
    }
}

#[test]
fn integer_encoding_matches_the_platform_for_edge_values() {
    for v in [0i64, 1, -1, 2, 7, 1000, -44100, 9007199254740991, -9007199254740991] {
        assert_eq!(int_to_n64_bits(v), Some((v as f64).to_bits()));
    }
    assert_eq!(int_to_n64_bits(9007199254740992), None);
    assert_eq!(int_to_n64_bits(i64::MIN), None);
}

#[test]
fn list_documents_round_trip_each_kind() {
    let mut lib = Library::bootstrap(9);
    lib.tracks.insert_new("t1".to_string(), mk_track("t1.mp3", 1));
    lib.tracks.insert_new("t2".to_string(), mk_track("t2.mp3", 2));
    let fid = new_playlist(
        &mut lib,
        "F".to_string(),
        "fd".to_string(),
        true,
        &"root".to_string(),
        2,
    )
    .unwrap();
    let pid = new_playlist(&mut lib, "P".to_string(), "".to_string(), false, &fid, 3).unwrap();
    add_tracks(&mut lib, &pid, vec!["t1".to_string(), "t2".to_string()]).unwrap();
    for i in 0..lib.track_lists.entries.len() {
        let original = &lib.track_lists.entries[i].1;
        let d = build_list_doc(original);
        let back = parse_list_doc(&d).unwrap();
        match (original, &back) {
            (TrackList::Playlist(p), TrackList::Playlist(q)) => {
                assert_eq!(p.id, q.id);
                assert_eq!(p.name, q.name);
                assert_eq!(p.date_created, q.date_created);
                assert_eq!(p.description, q.description);
                assert_eq!(p.tracks, q.tracks);
            }
            (TrackList::Folder(f), TrackList::Folder(g)) => {
                assert_eq!(f.id, g.id);
                assert_eq!(f.name, g.name);
                assert_eq!(f.description, g.description);
                assert_eq!(f.children, g.children);
            }
            (TrackList::Special(s), TrackList::Special(u)) => {
                assert_eq!(s.id, u.id);
                assert_eq!(s.children, u.children);
            }
            _ => panic!("kind changed in the round trip"),
        }
    }
}

#[test]
fn library_document_round_trips_whole_aggregates() {
    let mut lib = Library::bootstrap(9);
    let fid = new_playlist(
        &mut lib,
        "F".to_string(),
        "".to_string(),
        true,
        &"root".to_string(),
        2,
    )
    .unwrap();
    let pid = new_playlist(&mut lib, "P".to_string(), "desc".to_string(), false, &fid, 3)
        .unwrap();
    lib.tracks.insert_new("t1".to_string(), full_track());
    lib.tracks.insert_new("t2".to_string(), mk_track("two.m4a", 6));
    add_tracks(&mut lib, &pid, vec!["t1".to_string(), "t2".to_string(), "t1".to_string()])
        .unwrap();
    lib.play_time.push(PlayTime { id: "t1".to_string(), start: 100, duration: 200 });
    let d = build_library_doc(&lib);
    let back = parse_library_doc(&d).unwrap();
    assert_eq!(back.version, Version::V1);
    assert_eq!(back.play_time.len(), 1);
    assert_eq!(back.play_time[0].id, "t1");
    assert_eq!(back.play_time[0].start, 100);
    assert_eq!(back.tracks.entries.len(), 2);
    assert_eq!(back.tracks.entries[0].0, "t1");
    assert_tracks_eq(&back.tracks.entries[0].1, &lib.tracks.entries[0].1);
    assert_tracks_eq(&back.tracks.entries[1].1, &lib.tracks.entries[1].1);
    assert_eq!(back.track_lists.entries.len(), 3);
    assert_eq!(back.track_lists.entries[0].0, "root");
    match (&back.track_lists.entries[2].1, &lib.track_lists.entries[2].1) {
        (TrackList::Playlist(q), TrackList::Playlist(p)) => {
            assert_eq!(q.tracks, p.tracks);
            assert_eq!(q.description, p.description);
        }
        _ => panic!(),
    }
}

#[test]
fn library_documents_with_bad_versions_or_duplicate_keys_fail() {
    let lib = Library::bootstrap(9);
    let d = build_library_doc(&lib);
    match d {
        DocValue::Obj(mut es) => {
            es[0].1 = DocValue::Int(2);
            assert!(parse_library_doc(&DocValue::Obj(es)).is_none());
        }
        _ => panic!(),
    }
    let d2 = build_library_doc(&lib);
    let root_doc_again = build_list_doc(&lib.track_lists.entries[0].1);
    match d2 {
        DocValue::Obj(mut es) => {
            match &mut es[3].1 {
                DocValue::Obj(les) => {
                    les.push(("root".to_string(), root_doc_again));
                }
                _ => panic!(),
            }
            assert!(parse_library_doc(&DocValue::Obj(es)).is_none());
        }
        _ => panic!(),
    }
}

#[test]
fn file_type_is_judged_by_the_extension() {
    assert_eq!(FileType::from_path("song.mp3").unwrap(), FileType::Mp3);
    assert_eq!(FileType::from_path("a/b/tune.m4a").unwrap(), FileType::M4a);
    assert_eq!(FileType::from_path("x.opus").unwrap(), FileType::Opus);
    assert!(FileType::from_path("x.flac").is_err());
    assert!(FileType::from_path("noext").is_err());
    assert!(FileType::from_path("dir/.mp3").is_err());
}

#[test]
fn file_extensions_round_trip_through_the_kind() {
    assert_eq!(FileType::Mp3.file_extension(), "mp3");
    assert_eq!(FileType::M4a.file_extension(), "m4a");
    assert_eq!(FileType::Opus.file_extension(), "opus");
}

#[test]
fn path_helpers_split_stem_and_extension() {
    assert_eq!(extension_of("dir/song.tar.mp3"), "mp3");
    assert_eq!(extension_of("dir/.bashrc"), "");
    assert_eq!(extension_of("plain"), "");
    assert_eq!(file_stem_of("dir/song.mp3"), "song");
    assert_eq!(file_stem_of("song.mp3"), "song");
    assert_eq!(file_stem_of("dir/noext"), "noext");
}

#[test]
fn year_resolution_prefers_the_recording_date() {
    assert_eq!(resolve_year(Some(2001), Some(1999), Some(1998)), (Some(2001), None));
    assert_eq!(resolve_year(None, Some(1999), Some(1998)), (Some(1999), Some(1999)));
    assert_eq!(resolve_year(None, None, Some(1998)), (Some(1998), Some(1998)));
    assert_eq!(resolve_year(None, None, None), (None, None));
}

#[test]
fn frame_bits_sum_the_sizes_times_eight() {
    assert_eq!(sum_frame_bits(&vec![100, 200, 3]), 303 * 8);
    assert_eq!(sum_frame_bits(&Vec::new()), 0);
}

#[test]
fn generated_filenames_avoid_collisions() {
    let taken: Vec<String> = Vec::new();
    assert_eq!(generate_filename(&taken, "Band", "One", "mp3"), "Band - One.mp3");
    assert_eq!(generate_filename(&taken, "", "One", "mp3"), "One.mp3");
    assert_eq!(generate_filename(&taken, "A/B", "C", "m4a"), "A_B - C.m4a");
    let taken2 = vec!["Band - One.mp3".to_string(), "Band - One_.mp3".to_string()];
    assert_eq!(generate_filename(&taken2, "Band", "One", "mp3"), "Band - One__.mp3");
}
