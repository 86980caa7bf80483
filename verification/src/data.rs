//! The per-process view state: the open list, its materialized id
//! sequence, the optional page narrowing, the filter text, and the sort
//! state. Every operation either succeeds and leaves the state mutually
//! consistent, or fails without mutating any of it.

use vstd::prelude::*;

use crate::error::LibError;
use crate::library::{Library, Paths};
use crate::omap::{lemma_assoc_get_index, lemma_assoc_get_some_iff};
use crate::sort::sort;
use crate::strutil::clone_ids;
use crate::tracklist::TrackList;
use crate::tree::reaches;
use crate::view_options::ViewOptions;

verus! {

/// The stored tracks of the node at `id`, or nothing for other nodes.
pub open spec fn playlist_tracks_of(lib: Library, id: Seq<char>) -> Seq<String> {
    match lib.track_lists.spec_get(id) {
        Some(TrackList::Playlist(p)) => p.tracks@,
        _ => Seq::empty(),
    }
}

/// The concatenation of the stored tracks of the listed nodes, in order.
pub open spec fn flatten_tracks(lib: Library, ds: Seq<String>) -> Seq<String>
    decreases ds.len(),
{
    if ds.len() == 0 {
        Seq::empty()
    } else {
        flatten_tracks(lib, ds.drop_last()) + playlist_tracks_of(lib, ds.last()@)
    }
}

/// Every playlist's stored track ids resolve in the catalog.
pub open spec fn members_in_catalog(lib: Library) -> bool {
    forall|j: int|
        0 <= j < lib.track_lists.entries@.len() ==> (match (
        #[trigger] lib.track_lists.entries@[j]).1 {
            TrackList::Playlist(p) => forall|t: int|
                0 <= t < p.tracks@.len() ==> lib.tracks.spec_get(
                    (#[trigger] p.tracks@[t])@,
                ) is Some,
            _ => true,
        })
}

/// Under full membership, every flattened id resolves in the catalog.
proof fn lemma_flatten_in_catalog(lib: Library, ds: Seq<String>)
    requires
        members_in_catalog(lib),
    ensures
        forall|j: int|
            0 <= j < flatten_tracks(lib, ds).len() ==> lib.tracks.spec_get(
                (#[trigger] flatten_tracks(lib, ds)[j])@,
            ) is Some,
    decreases ds.len(),
{
    if ds.len() > 0 {
        lemma_flatten_in_catalog(lib, ds.drop_last());
        let tail = playlist_tracks_of(lib, ds.last()@);
        if tail.len() > 0 {
            lemma_assoc_get_index(lib.track_lists.entries@, ds.last()@);
            let j = choose|j: int|
                0 <= j < lib.track_lists.entries@.len() && lib.track_lists.entries@[j].0@
                    == ds.last()@ && Some(lib.track_lists.entries@[j].1)
                    == crate::omap::assoc_get(lib.track_lists.entries@, ds.last()@);
            assert(lib.track_lists.entries@[j].1 matches TrackList::Playlist(p) && p.tracks@
                == tail);
        }
        assert forall|j: int|
            0 <= j < flatten_tracks(lib, ds).len() implies lib.tracks.spec_get(
            (#[trigger] flatten_tracks(lib, ds)[j])@,
        ) is Some by {
            let front = flatten_tracks(lib, ds.drop_last());
            if j < front.len() {
                assert(flatten_tracks(lib, ds)[j] == front[j]);
            } else {
                assert(flatten_tracks(lib, ds)[j] == tail[j - front.len()]);
            }
        }
    }
}

/// The id sequence a list presents: a playlist's stored order, or the
/// flattened stored tracks of a folder's or special list's descendants.
pub fn get_track_ids(lib: &Library, list_id: &String) -> (r: Result<Vec<String>, LibError>)
    ensures
        match r {
            Ok(v) => match lib.track_lists.spec_get(list_id@) {
                Some(TrackList::Playlist(p)) => v@ == p.tracks@,
                Some(_) => v@ == flatten_tracks(
                    *lib,
                    crate::tree::dfs_preorder(*lib, list_id@),
                ),
                None => false,
            },
            Err(e) => {
                &&& e == LibError::TracklistNotFound
                &&& (!lib.track_lists.contains_key(list_id@) || exists|x: Seq<char>|
                    reaches(*lib, list_id@, x) && !lib.track_lists.contains_key(x))
            },
        },
{
    match lib.get_tracklist(list_id) {
        Err(e) => {
            return Err(e);
        },
        Ok(TrackList::Playlist(p)) => {
            return Ok(clone_ids(&p.tracks));
        },
        Ok(_) => {},
    }
    let ds = match crate::tree::get_all_tracklist_children(lib, list_id) {
        Ok(v) => v,
        Err(e) => {
            return Err(e);
        },
    };
    let mut out: Vec<String> = Vec::new();
    let n = ds.len();
    let mut k: usize = 0;
    proof {
        assert(ds@.subrange(0, 0) =~= Seq::<String>::empty());
    }
    while k < n
        invariant
            n == ds@.len(),
            k <= n,
            out@ == flatten_tracks(*lib, ds@.subrange(0, k as int)),
        decreases n - k,
    {
        let ghost prefix = ds@.subrange(0, k as int);
        let mut piece: Vec<String> = match lib.track_lists.get(&ds[k]) {
            Some(TrackList::Playlist(p)) => clone_ids(&p.tracks),
            _ => Vec::new(),
        };
        out.append(&mut piece);
        proof {
            assert(ds@.subrange(0, k + 1 as int).drop_last() =~= prefix);
            assert(ds@.subrange(0, k + 1 as int).last() == ds@[k as int]);
        }
        k = k + 1;
    }
    proof {
        assert(ds@.subrange(0, n as int) =~= ds@);
    }
    Ok(out)
}

pub struct Data {
    pub paths: Paths,
    pub library: Library,
    pub view_options: ViewOptions,
    /// All tracks of the open list, even those the filter hides.
    pub open_playlist_track_ids: Vec<String>,
    /// The visible tracks of the current page, when one was computed.
    pub page_track_ids: Option<Vec<String>>,
    pub open_playlist_id: String,
    pub filter: String,
    pub sort_key: String,
    pub sort_desc: bool,
    pub group_album_tracks: bool,
}

impl Data {
    /// The page-narrowed sequence when one exists, else the full open-list
    /// sequence: paging is an overlay, never a separate source of truth.
    pub fn get_page_tracks(&self) -> (r: &Vec<String>)
        ensures
            match self.page_track_ids {
                Some(p) => *r == p,
                None => *r == self.open_playlist_track_ids,
            },
    {
        match &self.page_track_ids {
            Some(ids) => ids,
            None => &self.open_playlist_track_ids,
        }
    }

    /// Switches the open list: re-derives its id sequence, clears any page
    /// narrowing, and applies the default sort — newest added first for
    /// the special root, natural manual order for playlists and folders.
    /// An unknown id leaves every piece of the state untouched.
    pub fn open_playlist(&mut self, playlist_id: String) -> (r: Result<(), LibError>)
        requires
            old(self).library.track_lists.wf(),
            members_in_catalog(old(self).library),
        ensures
            final(self).paths == old(self).paths,
            final(self).library == old(self).library,
            final(self).view_options == old(self).view_options,
            final(self).filter == old(self).filter,
            final(self).group_album_tracks == old(self).group_album_tracks,
            match r {
                Ok(()) => {
                    &&& final(self).open_playlist_id == playlist_id
                    &&& final(self).page_track_ids is None
                    &&& match old(self).library.track_lists.spec_get(playlist_id@) {
                        Some(TrackList::Playlist(p)) => {
                            &&& final(self).open_playlist_track_ids@ == p.tracks@
                            &&& final(self).sort_key@ == "index"@
                            &&& final(self).sort_desc == true
                        },
                        Some(TrackList::Folder(_)) => {
                            &&& final(self).open_playlist_track_ids@ == flatten_tracks(
                                old(self).library,
                                crate::tree::dfs_preorder(old(self).library, playlist_id@),
                            )
                            &&& final(self).sort_key@ == "index"@
                            &&& final(self).sort_desc == true
                        },
                        Some(TrackList::Special(_)) => {
                            &&& final(self).open_playlist_track_ids@
                                == crate::sort::spec_sort_by(
                                crate::sort::track_le_fn(
                                    old(self).library.tracks,
                                    "dateAdded"@,
                                ),
                                flatten_tracks(
                                    old(self).library,
                                    crate::tree::dfs_preorder(
                                        old(self).library,
                                        playlist_id@,
                                    ),
                                ),
                            ).reverse()
                            &&& final(self).sort_key@ == "dateAdded"@
                            &&& final(self).sort_desc == true
                        },
                        None => false,
                    }
                },
                Err(e) => {
                    &&& *final(self) == *old(self)
                    &&& e == LibError::TracklistNotFound
                    &&& (!old(self).library.track_lists.contains_key(playlist_id@) || exists|
                        x: Seq<char>,
                    |
                        reaches(old(self).library, playlist_id@, x) && !old(
                            self,
                        ).library.track_lists.contains_key(x))
                },
            },
    {
        let ids = match get_track_ids(&self.library, &playlist_id) {
            Ok(v) => v,
            Err(e) => {
                return Err(e);
            },
        };
        proof {
            lemma_assoc_get_some_iff(self.library.track_lists.entries@, playlist_id@);
        }
        let is_special = match self.library.get_tracklist(&playlist_id) {
            Ok(TrackList::Special(_)) => true,
            Ok(_) => false,
            Err(_) => {
                proof {
                    assert(false);
                }
                return Err(LibError::TracklistNotFound);
            },
        };
        self.open_playlist_id = playlist_id;
        self.open_playlist_track_ids = ids;
        self.page_track_ids = None;
        self.sort_key = String::from_str("index");
        self.sort_desc = true;
        if is_special {
            proof {
                reveal_strlit("size");
                reveal_strlit("duration");
                reveal_strlit("bitrate");
                reveal_strlit("sampleRate");
                reveal_strlit("file");
                reveal_strlit("dateModified");
                reveal_strlit("dateAdded");
                reveal_strlit("index");
                assert("dateAdded"@.len() == 9);
                assert("file"@.len() == 4);
                assert("dateAdded"@ != "file"@);
                assert(crate::track::spec_track_field_type("dateAdded"@) == Some(
                    crate::track::TrackField::I64,
                ));
                lemma_flatten_in_catalog(
                    old(self).library,
                    crate::tree::dfs_preorder(old(self).library, self.open_playlist_id@),
                );
                assert(crate::sort::sortable(
                    self.library.tracks,
                    "dateAdded"@,
                    self.open_playlist_track_ids@,
                ));
            }
            let res = sort(self, "dateAdded");
            match res {
                Ok(()) => {},
                Err(_) => {
                    proof {
                        assert(false);
                    }
                    return Err(LibError::TracklistNotFound);
                },
            }
        }
        Ok(())
    }

    /// The initial view state over a freshly loaded library: the root list
    /// open with its full derived id sequence, no page narrowing, no
    /// filter, and the default sort — newest added first under the special
    /// root. Succeeds exactly when opening the root does.
    pub fn init(paths: Paths, library: Library, view_options: ViewOptions) -> (r: Result<
        Data,
        LibError,
    >)
        requires
            library.track_lists.wf(),
            members_in_catalog(library),
        ensures
            match r {
                Ok(d) => {
                    &&& d.paths == paths
                    &&& d.library == library
                    &&& d.view_options == view_options
                    &&& d.open_playlist_id@ == "root"@
                    &&& d.page_track_ids is None
                    &&& d.filter@.len() == 0
                    &&& d.group_album_tracks == true
                    &&& match library.track_lists.spec_get("root"@) {
                        Some(TrackList::Playlist(p)) => {
                            &&& d.open_playlist_track_ids@ == p.tracks@
                            &&& d.sort_key@ == "index"@
                            &&& d.sort_desc == true
                        },
                        Some(TrackList::Folder(_)) => {
                            &&& d.open_playlist_track_ids@ == flatten_tracks(
                                library,
                                crate::tree::dfs_preorder(library, "root"@),
                            )
                            &&& d.sort_key@ == "index"@
                            &&& d.sort_desc == true
                        },
                        Some(TrackList::Special(_)) => {
                            &&& d.open_playlist_track_ids@ == crate::sort::spec_sort_by(
                                crate::sort::track_le_fn(library.tracks, "dateAdded"@),
                                flatten_tracks(
                                    library,
                                    crate::tree::dfs_preorder(library, "root"@),
                                ),
                            ).reverse()
                            &&& d.sort_key@ == "dateAdded"@
                            &&& d.sort_desc == true
                        },
                        None => false,
                    }
                },
                Err(e) => {
                    &&& e == LibError::TracklistNotFound
                    &&& (!library.track_lists.contains_key("root"@) || exists|x: Seq<char>|
                        reaches(library, "root"@, x) && !library.track_lists.contains_key(x))
                },
            },
    {
        let mut data = Data {
            paths,
            library,
            view_options,
            open_playlist_track_ids: Vec::new(),
            page_track_ids: None,
            open_playlist_id: String::from_str("root"),
            filter: String::new(),
            sort_key: String::from_str("index"),
            sort_desc: true,
            group_album_tracks: true,
        };
        match data.open_playlist(String::from_str("root")) {
            Ok(()) => Ok(data),
            Err(e) => Err(e),
        }
    }
}

} // verus!
