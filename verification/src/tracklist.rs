//! The tracklist node: a tagged union of playlist, folder and special list.
//!
//! A playlist carries an ordered sequence of track ids (duplicates allowed,
//! manual order significant); a folder carries an ordered sequence of child
//! tracklist ids; the special list is the system-reserved root.

use vstd::prelude::*;

verus! {

#[derive(Clone, Copy, PartialEq, Eq, Structural, Debug)]
pub enum SpecialTrackListName {
    Root,
}

#[derive(Clone, Debug)]
pub struct Playlist {
    pub id: String,
    pub name: String,
    pub date_created: i64,
    pub description: Option<String>,
    pub tracks: Vec<String>,
}

#[derive(Clone, Debug)]
pub struct Folder {
    pub id: String,
    pub name: String,
    pub date_created: i64,
    pub description: Option<String>,
    pub children: Vec<String>,
}

#[derive(Clone, Debug)]
pub struct Special {
    pub id: String,
    pub name: SpecialTrackListName,
    pub date_created: i64,
    pub children: Vec<String>,
}

#[derive(Clone, Debug)]
pub enum TrackList {
    Playlist(Playlist),
    Folder(Folder),
    Special(Special),
}

impl TrackList {
    pub open spec fn spec_id(&self) -> Seq<char> {
        match self {
            TrackList::Playlist(p) => p.id@,
            TrackList::Folder(f) => f.id@,
            TrackList::Special(s) => s.id@,
        }
    }

    /// Child tracklist ids; a playlist has none.
    pub open spec fn spec_children(&self) -> Seq<String> {
        match self {
            TrackList::Playlist(_) => Seq::empty(),
            TrackList::Folder(f) => f.children@,
            TrackList::Special(s) => s.children@,
        }
    }

    /// Views of the child ids.
    pub open spec fn child_ids(&self) -> Seq<Seq<char>> {
        self.spec_children().map_values(|c: String| c@)
    }

    pub open spec fn is_playlist(&self) -> bool {
        self matches TrackList::Playlist(_)
    }

    pub open spec fn is_folder(&self) -> bool {
        self matches TrackList::Folder(_)
    }

    pub open spec fn is_special(&self) -> bool {
        self matches TrackList::Special(_)
    }

    pub fn id(&self) -> (r: &String)
        ensures
            r@ == self.spec_id(),
    {
        match self {
            TrackList::Playlist(p) => &p.id,
            TrackList::Folder(f) => &f.id,
            TrackList::Special(s) => &s.id,
        }
    }
}

pub open spec fn same_playlist_meta(p: Playlist, q: Playlist) -> bool {
    &&& q.id == p.id
    &&& q.name == p.name
    &&& q.date_created == p.date_created
    &&& q.description == p.description
}

pub open spec fn same_folder_meta(f: Folder, g: Folder) -> bool {
    &&& g.id == f.id
    &&& g.name == f.name
    &&& g.date_created == f.date_created
    &&& g.description == f.description
}

pub open spec fn same_special_meta(s: Special, t: Special) -> bool {
    &&& t.id == s.id
    &&& t.name == s.name
    &&& t.date_created == s.date_created
}

/// `b` is `a` with its child sequence replaced by `cs`.
pub open spec fn children_replaced(a: TrackList, b: TrackList, cs: Seq<String>) -> bool {
    match (a, b) {
        (TrackList::Folder(f), TrackList::Folder(g)) => same_folder_meta(f, g) && g.children@
            == cs,
        (TrackList::Special(s), TrackList::Special(t)) => same_special_meta(s, t)
            && t.children@ == cs,
        _ => false,
    }
}

/// `b` is `a` with its track sequence replaced by `ts`.
pub open spec fn tracks_replaced(a: TrackList, b: TrackList, ts: Seq<String>) -> bool {
    match (a, b) {
        (TrackList::Playlist(p), TrackList::Playlist(q)) => same_playlist_meta(p, q)
            && q.tracks@ == ts,
        _ => false,
    }
}

} // verus!
