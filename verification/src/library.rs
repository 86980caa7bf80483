//! The library aggregate: the track catalog, the tracklist tree and the
//! schema version, owned by one handle for the life of the process.

use vstd::prelude::*;

use crate::error::LibError;
use crate::omap::OMap;
use crate::track::Track;
use crate::tracklist::{Playlist, Folder, Special, SpecialTrackListName, TrackList};

verus! {

/// Locations of the library's files and directories, as plain path
/// strings; the host resolves and creates them.
#[derive(Clone, Debug)]
pub struct Paths {
    pub library_dir: String,
    pub tracks_dir: String,
    pub artworks_dir: String,
    pub library_json: String,
    pub cache_dir: String,
    pub cache_db: String,
    pub local_data_dir: String,
}

/// Schema version tag of the persisted document; only one is defined.
#[derive(Clone, Copy, PartialEq, Eq, Structural, Debug)]
pub enum Version {
    V1,
}

/// One recorded listening span.
#[derive(Clone, Debug)]
pub struct PlayTime {
    pub id: String,
    pub start: i64,
    pub duration: i64,
}

pub struct Library {
    pub version: Version,
    pub play_time: Vec<PlayTime>,
    /// The catalog: track id to track record, insertion order preserved.
    pub tracks: OMap<Track>,
    /// The tree: tracklist id to node, insertion order preserved.
    pub track_lists: OMap<TrackList>,
}

impl Library {
    /// A fresh library holding only the root special list.
    pub fn bootstrap(now: i64) -> (r: Library)
        ensures
            r.version == Version::V1,
            r.play_time@.len() == 0,
            r.tracks.entries@.len() == 0,
            r.tracks.wf(),
            r.track_lists.wf(),
            r.track_lists.entries@.len() == 1,
            r.track_lists.entries@[0].0@ == "root"@,
            r.track_lists.entries@[0].1 matches TrackList::Special(s) && s.id@ == "root"@
                && s.name == SpecialTrackListName::Root && s.date_created == now
                && s.children@.len() == 0,
    {
        let root_key = String::from_str("root");
        let root = Special {
            id: String::from_str("root"),
            name: SpecialTrackListName::Root,
            date_created: now,
            children: Vec::new(),
        };
        let mut track_lists: OMap<TrackList> = OMap::new();
        track_lists.insert_new(root_key, TrackList::Special(root));
        Library {
            version: Version::V1,
            play_time: Vec::new(),
            tracks: OMap::new(),
            track_lists,
        }
    }

    pub fn get_tracklist(&self, id: &String) -> (r: Result<&TrackList, LibError>)
        ensures
            match r {
                Ok(t) => self.track_lists.spec_get(id@) == Some(*t)
                    && self.track_lists.contains_key(id@),
                Err(e) => e == LibError::TracklistNotFound
                    && !self.track_lists.contains_key(id@),
            },
    {
        match self.track_lists.get(id) {
            Some(t) => Ok(t),
            None => Err(LibError::TracklistNotFound),
        }
    }

    pub fn get_track(&self, id: &String) -> (r: Result<&Track, LibError>)
        ensures
            match r {
                Ok(t) => self.tracks.spec_get(id@) == Some(*t)
                    && self.tracks.contains_key(id@),
                Err(e) => e == LibError::TrackNotFound && !self.tracks.contains_key(id@),
            },
    {
        match self.tracks.get(id) {
            Some(t) => Ok(t),
            None => Err(LibError::TrackNotFound),
        }
    }

    /// A tracklist id not yet used by the tree.
    pub fn alloc_list_id(&self) -> (r: String)
        ensures
            !self.track_lists.contains_key(r@),
    {
        let n = self.track_lists.len();
        let mut max_len: usize = 0;
        let mut i: usize = 0;
        while i < n
            invariant
                n == self.track_lists.entries@.len(),
                i <= n,
                forall|j: int| 0 <= j < i ==> self.track_lists.keys()[j].len() <= max_len,
            decreases n - i,
        {
            let l = self.track_lists.key_at(i).as_str().unicode_len();
            if l > max_len {
                max_len = l;
            }
            proof {
                assert(self.track_lists.keys()[i as int].len() <= max_len);
            }
            i = i + 1;
        }
        let mut cand: String = String::from_str("p");
        proof {
            reveal_strlit("p");
            reveal_strlit("x");
        }
        while self.track_lists.contains(&cand)
            invariant
                forall|j: int|
                    0 <= j < self.track_lists.keys().len()
                        ==> self.track_lists.keys()[j].len() <= max_len,
            decreases max_len + 1 - cand@.len(),
    {
            proof {
                reveal_strlit("x");
                let ki = choose|j: int|
                    0 <= j < self.track_lists.keys().len() && self.track_lists.keys()[j]
                        == cand@;
                assert(self.track_lists.keys()[ki].len() <= max_len);
            }
            cand.append("x");
        }
        cand
    }

    /// A new, unattached playlist under a fresh id.
    pub fn new_playlist(&self, name: String, description: Option<String>, now: i64) -> (r:
        Playlist)
        ensures
            !self.track_lists.contains_key(r.id@),
            r.name == name,
            r.description == description,
            r.date_created == now,
            r.tracks@.len() == 0,
    {
        Playlist {
            id: self.alloc_list_id(),
            name,
            date_created: now,
            description,
            tracks: Vec::new(),
        }
    }

    /// A new, unattached folder under a fresh id.
    pub fn new_folder(&self, name: String, description: Option<String>, now: i64) -> (r: Folder)
        ensures
            !self.track_lists.contains_key(r.id@),
            r.name == name,
            r.description == description,
            r.date_created == now,
            r.children@.len() == 0,
    {
        Folder {
            id: self.alloc_list_id(),
            name,
            date_created: now,
            description,
            children: Vec::new(),
        }
    }
}

} // verus!
