//! Structural edits of the tracklist tree and playlist memberships.
//!
//! Every operation validates all of its preconditions before performing any
//! side effect: it either succeeds, or fails with the library unchanged.

use vstd::prelude::*;

use crate::error::LibError;
use crate::library::Library;
use crate::strutil::{ids_view, vec_contains_str};
use crate::tracklist::{
    children_replaced, same_playlist_meta, tracks_replaced, Folder, Playlist, TrackList,
};
use crate::tree::{get_all_tracklist_children, reaches};

verus! {

/// Fields of the library besides the tracklist tree are untouched.
pub open spec fn lists_only_changed(a: Library, b: Library) -> bool {
    &&& b.version == a.version
    &&& b.play_time == a.play_time
    &&& b.tracks == a.tracks
}

/// The tree keeps its length and keys, position by position.
pub open spec fn keys_unchanged(a: Library, b: Library) -> bool {
    &&& b.track_lists.entries@.len() == a.track_lists.entries@.len()
    &&& forall|j: int|
        0 <= j < a.track_lists.entries@.len()
            ==> #[trigger] b.track_lists.entries@[j].0 == a.track_lists.entries@[j].0
}

/// Appends the given track ids to the playlist's stored sequence; every
/// appended id must resolve in the catalog, checked before any change.
pub fn add_tracks(lib: &mut Library, playlist_id: &String, track_ids: Vec<String>) -> (r:
    Result<(), LibError>)
    requires
        old(lib).track_lists.wf(),
    ensures
        lists_only_changed(*old(lib), *final(lib)),
        final(lib).track_lists.wf(),
        match r {
            Ok(()) => {
                let es = old(lib).track_lists.entries@;
                let ki = old(lib).track_lists.key_index(playlist_id@);
                &&& old(lib).track_lists.contains_key(playlist_id@)
                &&& forall|k: int|
                    0 <= k < track_ids@.len() ==> old(lib).tracks.spec_get(
                        (#[trigger] track_ids@[k])@,
                    ) is Some
                &&& keys_unchanged(*old(lib), *final(lib))
                &&& (es[ki].1 matches TrackList::Playlist(p) && tracks_replaced(
                    es[ki].1,
                    final(lib).track_lists.entries@[ki].1,
                    p.tracks@ + track_ids@,
                ))
                &&& forall|j: int|
                    0 <= j < es.len() && j != ki
                        ==> #[trigger] final(lib).track_lists.entries@[j] == es[j]
            },
            Err(e) => *final(lib) == *old(lib) && match e {
                LibError::TracklistNotFound => !old(lib).track_lists.contains_key(
                    playlist_id@,
                ),
                LibError::CannotAddToFolder => old(lib).track_lists.spec_get(playlist_id@)
                    matches Some(l) && l is Folder,
                LibError::CannotAddToSpecial => old(lib).track_lists.spec_get(playlist_id@)
                    matches Some(l) && l is Special,
                LibError::TrackNotFound => (old(lib).track_lists.spec_get(playlist_id@)
                    matches Some(l) && l is Playlist) && exists|k: int|
                    0 <= k < track_ids@.len() && old(lib).tracks.spec_get(
                        (#[trigger] track_ids@[k])@,
                    ) is None,
                _ => false,
            },
        },
{
    let idx = match lib.track_lists.index_of(playlist_id) {
        Some(i) => i,
        None => {
            return Err(LibError::TracklistNotFound);
        },
    };
    proof {
        old(lib).track_lists.lemma_get_by_index(idx as int);
    }
    match lib.track_lists.value_at(idx) {
        TrackList::Playlist(_) => {},
        TrackList::Folder(_) => {
            return Err(LibError::CannotAddToFolder);
        },
        TrackList::Special(_) => {
            return Err(LibError::CannotAddToSpecial);
        },
    }
    // referential integrity is checked at mutation time: every appended
    // id must already be in the catalog
    let n = track_ids.len();
    let mut k: usize = 0;
    while k < n
        invariant
            n == track_ids@.len(),
            k <= n,
            *lib == *old(lib),
            old(lib).track_lists.wf(),
            old(lib).track_lists.spec_get(playlist_id@) matches Some(l2) && l2 is Playlist,
            forall|j: int|
                0 <= j < k ==> lib.tracks.spec_get((#[trigger] track_ids@[j])@) is Some,
        decreases n - k,
    {
        if !lib.tracks.contains(&track_ids[k]) {
            proof {
                crate::omap::lemma_assoc_get_some_iff(
                    lib.tracks.entries@,
                    track_ids@[k as int]@,
                );
            }
            return Err(LibError::TrackNotFound);
        }
        proof {
            crate::omap::lemma_assoc_get_some_iff(lib.tracks.entries@, track_ids@[k as int]@);
        }
        k = k + 1;
    }
    let mut tids = track_ids;
    let node = lib.track_lists.value_at_mut(idx);
    match node {
        TrackList::Playlist(p) => {
            p.tracks.append(&mut tids);
        },
        TrackList::Folder(_) => {
            proof {
                assert(false);
            }
        },
        TrackList::Special(_) => {
            proof {
                assert(false);
            }
        },
    }
    proof {
        assert(lib.track_lists.keys() =~= old(lib).track_lists.keys());
    }
    Ok(())
}

/// Renames a playlist or folder and replaces its description; special
/// lists are not user-editable.
pub fn update_playlist(lib: &mut Library, id: &String, name: String, description: String) -> (r:
    Result<(), LibError>)
    requires
        old(lib).track_lists.wf(),
    ensures
        lists_only_changed(*old(lib), *final(lib)),
        final(lib).track_lists.wf(),
        match r {
            Ok(()) => {
                let es = old(lib).track_lists.entries@;
                let ki = old(lib).track_lists.key_index(id@);
                let new_desc = if description@.len() == 0 {
                    None
                } else {
                    Some(description)
                };
                &&& old(lib).track_lists.contains_key(id@)
                &&& keys_unchanged(*old(lib), *final(lib))
                &&& match (es[ki].1, final(lib).track_lists.entries@[ki].1) {
                    (TrackList::Playlist(p), TrackList::Playlist(q)) => {
                        &&& q.id == p.id
                        &&& q.date_created == p.date_created
                        &&& q.tracks == p.tracks
                        &&& q.name == name
                        &&& q.description == new_desc
                    },
                    (TrackList::Folder(f), TrackList::Folder(g)) => {
                        &&& g.id == f.id
                        &&& g.date_created == f.date_created
                        &&& g.children == f.children
                        &&& g.name == name
                        &&& g.description == new_desc
                    },
                    _ => false,
                }
                &&& forall|j: int|
                    0 <= j < es.len() && j != ki
                        ==> #[trigger] final(lib).track_lists.entries@[j] == es[j]
            },
            Err(e) => *final(lib) == *old(lib) && match e {
                LibError::PlaylistNotFound => !old(lib).track_lists.contains_key(id@),
                LibError::CannotEditSpecial => old(lib).track_lists.spec_get(id@)
                    matches Some(l) && l is Special,
                _ => false,
            },
        },
{
    let idx = match lib.track_lists.index_of(id) {
        Some(i) => i,
        None => {
            return Err(LibError::PlaylistNotFound);
        },
    };
    proof {
        old(lib).track_lists.lemma_get_by_index(idx as int);
    }
    match lib.track_lists.value_at(idx) {
        TrackList::Special(_) => {
            return Err(LibError::CannotEditSpecial);
        },
        _ => {},
    }
    let desc = crate::str_to_option(description);
    let node = lib.track_lists.value_at_mut(idx);
    match node {
        TrackList::Playlist(p) => {
            p.name = name;
            p.description = desc;
        },
        TrackList::Folder(f) => {
            f.name = name;
            f.description = desc;
        },
        TrackList::Special(_) => {
            proof {
                assert(false);
            }
        },
    }
    proof {
        assert(lib.track_lists.keys() =~= old(lib).track_lists.keys());
    }
    Ok(())
}

/// The ids among `ids` that the playlist does not already hold, each once.
///
/// The original order among kept first occurrences is preserved.
pub fn filter_duplicates(lib: &Library, playlist_id: &String, ids: Vec<String>) -> (r: Result<
    Vec<String>,
    LibError,
>)
    ensures
        match r {
            Ok(v) => {
                &&& lib.track_lists.spec_get(playlist_id@) matches Some(l) && l is Playlist
                &&& ids_view(v@).no_duplicates()
                &&& (lib.track_lists.spec_get(playlist_id@) matches Some(
                    TrackList::Playlist(p),
                ) && forall|x: Seq<char>|
                    ids_view(v@).contains(x) <==> (ids_view(ids@).contains(x) && !ids_view(
                        p.tracks@,
                    ).contains(x)))
            },
            Err(e) => match e {
                LibError::TracklistNotFound => !lib.track_lists.contains_key(playlist_id@),
                LibError::NonPlaylistDuplicateCheck => lib.track_lists.spec_get(playlist_id@)
                    matches Some(l) && !(l is Playlist),
                _ => false,
            },
        },
{
    let node = match lib.get_tracklist(playlist_id) {
        Ok(t) => t,
        Err(e) => {
            return Err(e);
        },
    };
    let pl = match node {
        TrackList::Playlist(p) => p,
        _ => {
            return Err(LibError::NonPlaylistDuplicateCheck);
        },
    };
    let mut out: Vec<String> = Vec::new();
    let n = ids.len();
    let mut i: usize = 0;
    while i < n
        invariant
            n == ids@.len(),
            i <= n,
            ids_view(out@).no_duplicates(),
            forall|x: Seq<char>|
                ids_view(out@).contains(x) ==> (ids_view(ids@).contains(x) && !ids_view(
                    pl.tracks@,
                ).contains(x)),
            forall|j: int|
                0 <= j < i && !ids_view(pl.tracks@).contains(#[trigger] ids@[j]@)
                    ==> ids_view(out@).contains(ids@[j]@),
        decreases n - i,
    {
        let ghost prev = out@;
        let cand = &ids[i];
        let in_tracks = vec_contains_str(&pl.tracks, cand);
        let in_out = vec_contains_str(&out, cand);
        if !in_tracks && !in_out {
            out.push(cand.clone());
            proof {
                assert(ids_view(out@) =~= ids_view(prev).push(cand@));
                assert forall|x: Seq<char>|
                    ids_view(prev).contains(x) implies ids_view(out@).contains(x) by {
                    let j = choose|j: int| 0 <= j < prev.len() && prev[j]@ == x;
                    assert(ids_view(out@)[j] == x);
                }
                assert forall|x: Seq<char>|
                    ids_view(out@).contains(x) implies (ids_view(prev).contains(x) || x
                    == cand@) by {
                    let j = choose|j: int| 0 <= j < out@.len() && out@[j]@ == x;
                    if j < prev.len() {
                        assert(ids_view(prev)[j] == x);
                    }
                }
                assert(ids_view(out@).contains(cand@)) by {
                    assert(ids_view(out@).last() == cand@);
                }
                assert(ids_view(ids@)[i as int] == cand@);
                assert(forall|j: int| 0 <= j < prev.len() ==> ids_view(prev)[j] != cand@);
                assert(ids_view(out@).no_duplicates());
                assert(ids_view(ids@).contains(cand@)) by {
                    assert(ids_view(ids@)[i as int] == cand@);
                }
                assert forall|x: Seq<char>| ids_view(out@).contains(x) implies (ids_view(
                    ids@,
                ).contains(x) && !ids_view(pl.tracks@).contains(x)) by {
                    if !ids_view(prev).contains(x) {
                        assert(x == cand@);
                    }
                }
            }
        }
        proof {
            assert(ids_view(ids@)[i as int] == cand@);
        }
        i = i + 1;
    }
    proof {
        assert forall|x: Seq<char>|
            ids_view(ids@).contains(x) && !ids_view(pl.tracks@).contains(x) implies ids_view(
            out@,
        ).contains(x) by {
            let j = choose|j: int| 0 <= j < ids@.len() && ids@[j]@ == x;
            assert(!ids_view(pl.tracks@).contains(ids@[j]@));
        }
    }
    Ok(out)
}

/// `v` with every occurrence of `id` dropped, order preserved.
pub fn filter_out_id(v: &Vec<String>, id: &String) -> (r: Vec<String>)
    ensures
        r@ == v@.filter(|s: String| s@ != id@),
{
    let mut out: Vec<String> = Vec::new();
    let n = v.len();
    let mut i: usize = 0;
    proof {
        assert(v@.subrange(0, 0) =~= Seq::<String>::empty());
        reveal(Seq::filter);
    }
    while i < n
        invariant
            n == v@.len(),
            i <= n,
            out@ == v@.subrange(0, i as int).filter(|s: String| s@ != id@),
        decreases n - i,
    {
        let keep = !(v[i] == *id);
        proof {
            reveal(Seq::filter);
            assert(v@.subrange(0, i + 1 as int).drop_last() =~= v@.subrange(0, i as int));
            assert(v@.subrange(0, i + 1 as int).last() == v@[i as int]);
        }
        if keep {
            out.push(v[i].clone());
        }
        i = i + 1;
    }
    proof {
        assert(v@.subrange(0, n as int) =~= v@);
    }
    out
}

/// Drops `id` from every playlist's track sequence across the whole tree.
pub fn remove_from_all_playlists(lib: &mut Library, id: &String)
    ensures
        lists_only_changed(*old(lib), *final(lib)),
        keys_unchanged(*old(lib), *final(lib)),
        old(lib).track_lists.wf() ==> final(lib).track_lists.wf(),
        forall|j: int|
            0 <= j < old(lib).track_lists.entries@.len() ==> match old(
                lib,
            ).track_lists.entries@[j].1 {
                TrackList::Playlist(p) => tracks_replaced(
                    old(lib).track_lists.entries@[j].1,
                    #[trigger] final(lib).track_lists.entries@[j].1,
                    p.tracks@.filter(|s: String| s@ != id@),
                ),
                _ => final(lib).track_lists.entries@[j] == old(lib).track_lists.entries@[j],
            },
{
    let n = lib.track_lists.len();
    let mut i: usize = 0;
    while i < n
        invariant
            n == lib.track_lists.entries@.len(),
            i <= n,
            lists_only_changed(*old(lib), *lib),
            keys_unchanged(*old(lib), *lib),
            forall|j: int|
                i <= j < n ==> #[trigger] lib.track_lists.entries@[j] == old(
                    lib,
                ).track_lists.entries@[j],
            forall|j: int|
                0 <= j < i ==> match old(lib).track_lists.entries@[j].1 {
                    TrackList::Playlist(p) => tracks_replaced(
                        old(lib).track_lists.entries@[j].1,
                        #[trigger] lib.track_lists.entries@[j].1,
                        p.tracks@.filter(|s: String| s@ != id@),
                    ),
                    _ => lib.track_lists.entries@[j] == old(lib).track_lists.entries@[j],
                },
        decreases n - i,
    {
        let is_playlist = match lib.track_lists.value_at(i) {
            TrackList::Playlist(_) => true,
            _ => false,
        };
        if is_playlist {
            let new_tracks = match lib.track_lists.value_at(i) {
                TrackList::Playlist(p) => filter_out_id(&p.tracks, id),
                _ => Vec::new(),
            };
            let node = lib.track_lists.value_at_mut(i);
            match node {
                TrackList::Playlist(p) => {
                    p.tracks = new_tracks;
                },
                _ => {
                    proof {
                        assert(false);
                    }
                },
            }
        }
        i = i + 1;
    }
    proof {
        if old(lib).track_lists.wf() {
            assert(lib.track_lists.keys() =~= old(lib).track_lists.keys());
        }
    }
}

/// Removes a track from the catalog and from every playlist.
///
/// The catalog entry is gone when this returns, whatever later happens to
/// the underlying file: the destructive file step is ordered after this.
pub fn delete_track(lib: &mut Library, id: &String)
    requires
        old(lib).tracks.wf(),
        old(lib).tracks.contains_key(id@),
    ensures
        final(lib).version == old(lib).version,
        final(lib).play_time == old(lib).play_time,
        keys_unchanged(*old(lib), *final(lib)),
        old(lib).track_lists.wf() ==> final(lib).track_lists.wf(),
        forall|j: int|
            0 <= j < old(lib).track_lists.entries@.len() ==> match old(
                lib,
            ).track_lists.entries@[j].1 {
                TrackList::Playlist(p) => tracks_replaced(
                    old(lib).track_lists.entries@[j].1,
                    #[trigger] final(lib).track_lists.entries@[j].1,
                    p.tracks@.filter(|s: String| s@ != id@),
                ),
                _ => final(lib).track_lists.entries@[j] == old(lib).track_lists.entries@[j],
            },
        final(lib).tracks.entries@ == old(lib).tracks.entries@.remove(
            old(lib).tracks.key_index(id@),
        ),
        final(lib).tracks.wf(),
        !final(lib).tracks.contains_key(id@),
{
    remove_from_all_playlists(lib, id);
    let ti = match lib.tracks.index_of(id) {
        Some(i) => i,
        None => {
            proof {
                assert(false);
            }
            return ;
        },
    };
    proof {
        lib.tracks.lemma_get_by_index(ti as int);
    }
    let _removed = lib.tracks.take_at(ti);
    proof {
        assert forall|j: int|
            0 <= j < lib.tracks.entries@.len() implies #[trigger] lib.tracks.entries@[j].0@
            != id@ by {
            let ks = old(lib).tracks.keys();
            assert(lib.tracks.keys() =~= ks.remove(ti as int));
            assert(lib.tracks.keys()[j] == if j < ti as int {
                ks[j]
            } else {
                ks[j + 1]
            });
            assert(ks.no_duplicates());
            assert(ks[ti as int] == id@);
        }
        crate::omap::lemma_assoc_get_none(lib.tracks.entries@, id@);
        crate::omap::lemma_assoc_get_some_iff(lib.tracks.entries@, id@);
    }
}

/// The current page of the view: the narrowed sequence when one was
/// computed, else the full open-list sequence.
pub open spec fn page_view(d: crate::data::Data) -> Seq<String> {
    match d.page_track_ids {
        Some(p) => p@,
        None => d.open_playlist_track_ids@,
    }
}

/// Resolves visible-page indices to track ids; any index beyond the page
/// fails the whole resolution.
pub fn get_page_ids(data: &crate::data::Data, indexes: &Vec<u32>) -> (r: Result<
    Vec<String>,
    LibError,
>)
    ensures
        match r {
            Ok(v) => {
                &&& v@.len() == indexes@.len()
                &&& forall|k: int|
                    0 <= k < indexes@.len() ==> (#[trigger] indexes@[k]) < page_view(
                        *data,
                    ).len() && v@[k] == page_view(*data)[indexes@[k] as int]
            },
            Err(e) => e == LibError::TrackIndexNotFound && exists|k: int|
                0 <= k < indexes@.len() && (#[trigger] indexes@[k]) >= page_view(*data).len(),
        },
{
    let page = data.get_page_tracks();
    let mut out: Vec<String> = Vec::new();
    let n = indexes.len();
    let mut k: usize = 0;
    while k < n
        invariant
            n == indexes@.len(),
            k <= n,
            page_view(*data) == page@,
            out@.len() == k,
            forall|k2: int|
                0 <= k2 < k ==> (#[trigger] indexes@[k2]) < page@.len() && out@[k2]
                    == page@[indexes@[k2] as int],
        decreases n - k,
    {
        let idx = indexes[k] as usize;
        if idx >= page.len() {
            return Err(LibError::TrackIndexNotFound);
        }
        out.push(page[idx].clone());
        k = k + 1;
    }
    Ok(out)
}

/// Whether some element of `v`, read as a position, equals `i`.
fn contains_index(v: &Vec<u32>, i: usize) -> (r: bool)
    ensures
        r == idx_selected(v@, i as int),
{
    let n = v.len();
    let mut k: usize = 0;
    while k < n
        invariant
            n == v@.len(),
            k <= n,
            forall|k2: int| 0 <= k2 < k ==> (#[trigger] v@[k2]) as int != i as int,
        decreases n - k,
    {
        if v[k] as usize == i {
            return true;
        }
        k = k + 1;
    }
    false
}

/// Position `i` is listed among the removal indices.
pub open spec fn idx_selected(idxs: Seq<u32>, i: int) -> bool {
    exists|k: int| 0 <= k < idxs.len() && (#[trigger] idxs[k]) as int == i
}

/// `ts` with the elements at the listed positions dropped; the order of
/// everything kept is preserved.
pub open spec fn drop_selected(ts: Seq<String>, idxs: Seq<u32>) -> Seq<String>
    decreases ts.len(),
{
    if ts.len() == 0 {
        Seq::empty()
    } else if idx_selected(idxs, ts.len() - 1) {
        drop_selected(ts.drop_last(), idxs)
    } else {
        drop_selected(ts.drop_last(), idxs).push(ts.last())
    }
}

/// Removes tracks from the open playlist by their visual indices.
///
/// Rejected unless the view is the natural manual order — key `"index"`,
/// natural direction, no filter — since any transformed view would
/// desynchronize visual indices from storage indices. Indices beyond the
/// stored sequence are ignored; duplicates are harmless.
pub fn remove_from_open(data: &mut crate::data::Data, indexes_to_remove: &Vec<u32>) -> (r:
    Result<(), LibError>)
    requires
        old(data).library.track_lists.wf(),
    ensures
        final(data).library.track_lists.wf(),
        final(data).paths == old(data).paths,
        final(data).view_options == old(data).view_options,
        final(data).open_playlist_track_ids == old(data).open_playlist_track_ids,
        final(data).page_track_ids == old(data).page_track_ids,
        final(data).open_playlist_id == old(data).open_playlist_id,
        final(data).filter == old(data).filter,
        final(data).sort_key == old(data).sort_key,
        final(data).sort_desc == old(data).sort_desc,
        final(data).group_album_tracks == old(data).group_album_tracks,
        lists_only_changed(old(data).library, final(data).library),
        match r {
            Ok(()) => {
                let es = old(data).library.track_lists.entries@;
                let ki = old(data).library.track_lists.key_index(
                    old(data).open_playlist_id@,
                );
                &&& old(data).sort_key@ == "index"@
                &&& old(data).sort_desc == true
                &&& old(data).filter@.len() == 0
                &&& old(data).library.track_lists.contains_key(old(data).open_playlist_id@)
                &&& keys_unchanged(old(data).library, final(data).library)
                &&& (es[ki].1 matches TrackList::Playlist(p) && tracks_replaced(
                    es[ki].1,
                    final(data).library.track_lists.entries@[ki].1,
                    drop_selected(p.tracks@, indexes_to_remove@),
                ))
                &&& forall|j: int|
                    0 <= j < es.len() && j != ki
                        ==> #[trigger] final(data).library.track_lists.entries@[j] == es[j]
            },
            Err(e) => *final(data) == *old(data) && {
                let m = old(data).library.track_lists;
                let oid = old(data).open_playlist_id@;
                match e {
                    LibError::TracklistNotFound => !m.contains_key(oid),
                    LibError::CannotRemoveFromFolder => m.spec_get(oid) matches Some(l) && l
                        is Folder,
                    LibError::CannotRemoveFromSpecial => m.spec_get(oid) matches Some(l) && l
                        is Special,
                    LibError::RemoveWhileSorted => (m.spec_get(oid) matches Some(l) && l
                        is Playlist) && (old(data).sort_key@ != "index"@ || old(
                        data,
                    ).sort_desc != true),
                    LibError::RemoveWhileFiltered => (m.spec_get(oid) matches Some(l) && l
                        is Playlist) && old(data).sort_key@ == "index"@ && old(
                        data,
                    ).sort_desc == true && old(data).filter@.len() > 0,
                    _ => false,
                }
            },
        },
{
    let idx = match data.library.track_lists.index_of(&data.open_playlist_id) {
        Some(i) => i,
        None => {
            return Err(LibError::TracklistNotFound);
        },
    };
    proof {
        old(data).library.track_lists.lemma_get_by_index(idx as int);
    }
    match data.library.track_lists.value_at(idx) {
        TrackList::Playlist(_) => {},
        TrackList::Folder(_) => {
            return Err(LibError::CannotRemoveFromFolder);
        },
        TrackList::Special(_) => {
            return Err(LibError::CannotRemoveFromSpecial);
        },
    }
    if !crate::strutil::str_eq(data.sort_key.as_str(), "index") || !data.sort_desc {
        return Err(LibError::RemoveWhileSorted);
    }
    if !data.filter.as_str().is_empty() {
        return Err(LibError::RemoveWhileFiltered);
    }
    let new_tracks: Vec<String> = match data.library.track_lists.value_at(idx) {
        TrackList::Playlist(p) => {
            let n = p.tracks.len();
            let mut kept: Vec<String> = Vec::new();
            let mut i: usize = 0;
            proof {
                assert(p.tracks@.subrange(0, 0) =~= Seq::<String>::empty());
            }
            while i < n
                invariant
                    n == p.tracks@.len(),
                    i <= n,
                    kept@ == drop_selected(
                        p.tracks@.subrange(0, i as int),
                        indexes_to_remove@,
                    ),
                decreases n - i,
            {
                let ghost prefix = p.tracks@.subrange(0, i as int);
                let selected = contains_index(indexes_to_remove, i);
                proof {
                    assert(p.tracks@.subrange(0, i + 1 as int).drop_last() =~= prefix);
                    assert(p.tracks@.subrange(0, i + 1 as int).last() == p.tracks@[i as int]);
                }
                if !selected {
                    kept.push(p.tracks[i].clone());
                }
                i = i + 1;
            }
            proof {
                assert(p.tracks@.subrange(0, n as int) =~= p.tracks@);
            }
            kept
        },
        _ => {
            proof {
                assert(false);
            }
            Vec::new()
        },
    };
    let node = data.library.track_lists.value_at_mut(idx);
    match node {
        TrackList::Playlist(p) => {
            p.tracks = new_tracks;
        },
        _ => {
            proof {
                assert(false);
            }
        },
    }
    proof {
        assert(data.library.track_lists.keys() =~= old(data).library.track_lists.keys());
    }
    Ok(())
}

/// The removal indices sorted ascending with duplicates dropped, as the
/// destructive delete resolves them.
pub fn sort_dedup_indexes(v: &Vec<u32>) -> (r: Vec<u32>)
    ensures
        forall|a: int, b: int| 0 <= a < b < r@.len() ==> r@[a] < r@[b],
        forall|x: u32| r@.contains(x) <==> v@.contains(x),
{
    let mut out: Vec<u32> = Vec::new();
    let n = v.len();
    let mut i: usize = 0;
    while i < n
        invariant
            n == v@.len(),
            i <= n,
            forall|a: int, b: int| 0 <= a < b < out@.len() ==> out@[a] < out@[b],
            forall|x: u32| out@.contains(x) <==> v@.subrange(0, i as int).contains(x),
        decreases n - i,
    {
        let ghost prev = out@;
        let x = v[i];
        let m = out.len();
        let mut j: usize = 0;
        while j < m
            invariant
                m == out@.len(),
                j <= m,
                forall|a: int| 0 <= a < j ==> out@[a] < x,
            ensures
                j <= m,
                forall|a: int| 0 <= a < j ==> out@[a] < x,
                j < m ==> out@[j as int] >= x,
            decreases m - j,
        {
            if out[j] >= x {
                break ;
            }
            j = j + 1;
        }
        let dup = j < m && out[j] == x;
        if !dup {
            out.insert(j, x);
            proof {
                assert(out@.len() == prev.len() + 1);
                assert(forall|a: int| 0 <= a < j ==> out@[a] == prev[a]);
                assert(out@[j as int] == x);
                assert(forall|a: int| j < a < out@.len() ==> out@[a] == prev[a - 1]);
                assert(j < prev.len() ==> prev[j as int] > x);
                assert forall|a: int, b: int|
                    0 <= a < b < out@.len() implies out@[a] < out@[b] by {
                    if a < j && b == j {
                    } else if a == j && b > j {
                        assert(out@[b] == prev[b - 1]);
                        assert(prev[b - 1] >= prev[j as int]);
                    } else if a < j && b > j {
                        assert(out@[b] == prev[b - 1]);
                    }
                }
            }
        }
        proof {
            assert(out@.contains(x)) by {
                assert(out@[j as int] == x);
            }
            assert(v@.subrange(0, i + 1 as int).contains(x)) by {
                assert(v@.subrange(0, i + 1 as int)[i as int] == x);
            }
            assert forall|y: u32|
                out@.contains(y) implies v@.subrange(0, i + 1 as int).contains(y) by {
                let a = choose|a: int| 0 <= a < out@.len() && out@[a] == y;
                let in_prev = if dup {
                    assert(prev[a] == y);
                    true
                } else if a == j {
                    false
                } else if a < j {
                    assert(prev[a] == y);
                    true
                } else {
                    assert(prev[a - 1] == y);
                    true
                };
                if in_prev {
                    assert(prev.contains(y));
                    assert(v@.subrange(0, i as int).contains(y));
                    let b = choose|b: int|
                        0 <= b < i && #[trigger] v@.subrange(0, i as int)[b] == y;
                    assert(v@.subrange(0, i + 1 as int)[b] == y);
                } else {
                    assert(y == x);
                }
            }
            assert forall|y: u32|
                v@.subrange(0, i + 1 as int).contains(y) implies out@.contains(y) by {
                let a = choose|a: int|
                    0 <= a < i + 1 && #[trigger] v@.subrange(0, i + 1 as int)[a] == y;
                if a < i {
                    assert(v@.subrange(0, i as int)[a] == y);
                    assert(prev.contains(y));
                    let b = choose|b: int| 0 <= b < prev.len() && prev[b] == y;
                    if dup {
                        assert(out@[b] == y);
                    } else if b < j {
                        assert(out@[b] == y);
                    } else {
                        assert(out@[b + 1] == y);
                    }
                } else {
                    assert(y == x);
                }
            }
        }
        i = i + 1;
    }
    proof {
        assert(v@.subrange(0, n as int) =~= v@);
    }
    out
}

/// The children of the first occurrence of `id` removed: the sequence with
/// its first element spelling `id` dropped, or unchanged if none does.
pub open spec fn remove_first_id(cs: Seq<String>, id: Seq<char>) -> Seq<String> {
    match ids_view(cs).index_of_first(id) {
        Some(j) => cs.remove(j),
        None => cs,
    }
}

/// Allocates a playlist or folder and appends it under `parent_id`, which
/// must be a folder or the root special list.
pub fn new_playlist(
    lib: &mut Library,
    name: String,
    description: String,
    is_folder: bool,
    parent_id: &String,
    now: i64,
) -> (r: Result<String, LibError>)
    requires
        old(lib).track_lists.wf(),
    ensures
        lists_only_changed(*old(lib), *final(lib)),
        final(lib).track_lists.wf(),
        match r {
            Ok(nid) => {
                let es = old(lib).track_lists.entries@;
                let pi = old(lib).track_lists.key_index(parent_id@);
                let new_desc = if description@.len() == 0 {
                    None
                } else {
                    Some(description)
                };
                &&& old(lib).track_lists.contains_key(parent_id@)
                &&& !(es[pi].1 is Playlist)
                &&& !old(lib).track_lists.contains_key(nid@)
                &&& final(lib).track_lists.entries@.len() == es.len() + 1
                &&& forall|j: int|
                    0 <= j < es.len() && j != pi
                        ==> #[trigger] final(lib).track_lists.entries@[j] == es[j]
                &&& final(lib).track_lists.entries@[pi].0 == es[pi].0
                &&& children_replaced(
                    es[pi].1,
                    final(lib).track_lists.entries@[pi].1,
                    es[pi].1.spec_children().push(nid),
                )
                &&& final(lib).track_lists.entries@[es.len() as int].0 == nid
                &&& final(lib).track_lists.entries@[es.len() as int].0@ == nid@
                &&& (if is_folder {
                    final(lib).track_lists.entries@[es.len() as int].1 matches
                        TrackList::Folder(g) && g.id == nid && g.name == name
                        && g.description == new_desc && g.date_created == now
                        && g.children@.len() == 0
                } else {
                    final(lib).track_lists.entries@[es.len() as int].1 matches
                        TrackList::Playlist(q) && q.id == nid && q.name == name
                        && q.description == new_desc && q.date_created == now
                        && q.tracks@.len() == 0
                })
            },
            Err(e) => *final(lib) == *old(lib) && match e {
                LibError::ParentNotFound => !old(lib).track_lists.contains_key(parent_id@),
                LibError::ParentIsPlaylist => old(lib).track_lists.spec_get(parent_id@)
                    matches Some(l) && l is Playlist,
                _ => false,
            },
        },
{
    let pi = match lib.track_lists.index_of(parent_id) {
        Some(i) => i,
        None => {
            return Err(LibError::ParentNotFound);
        },
    };
    proof {
        old(lib).track_lists.lemma_get_by_index(pi as int);
    }
    match lib.track_lists.value_at(pi) {
        TrackList::Playlist(_) => {
            return Err(LibError::ParentIsPlaylist);
        },
        _ => {},
    }
    let desc = crate::str_to_option(description);
    let (nid, node) = if is_folder {
        let f = lib.new_folder(name, desc, now);
        (f.id.clone(), TrackList::Folder(f))
    } else {
        let p = lib.new_playlist(name, desc, now);
        (p.id.clone(), TrackList::Playlist(p))
    };
    let nid_for_parent = nid.clone();
    let pnode = lib.track_lists.value_at_mut(pi);
    match pnode {
        TrackList::Folder(f) => {
            f.children.push(nid_for_parent);
        },
        TrackList::Special(s) => {
            match s.name {
                crate::tracklist::SpecialTrackListName::Root => {
                    s.children.push(nid_for_parent);
                },
            }
        },
        TrackList::Playlist(_) => {
            proof {
                assert(false);
            }
        },
    }
    proof {
        assert(lib.track_lists.keys() =~= old(lib).track_lists.keys());
    }
    lib.track_lists.insert_new(nid.clone(), node);
    Ok(nid)
}

/// The child sequence of `id`, provided `id` is a user-editable container:
/// a folder, or the root special list.
pub fn get_children_if_user_editable<'a>(lib: &'a Library, id: &String) -> (r: Result<
    &'a Vec<String>,
    LibError,
>)
    ensures
        match r {
            Ok(v) => lib.track_lists.spec_get(id@) matches Some(l) && !(l is Playlist)
                && l.spec_children() == v@,
            Err(e) => match e {
                LibError::MoveEndpointMissing => !lib.track_lists.contains_key(id@),
                LibError::MoveEndpointNotFolder => lib.track_lists.spec_get(id@)
                    matches Some(l) && l is Playlist,
                _ => false,
            },
        },
{
    match lib.track_lists.get(id) {
        None => Err(LibError::MoveEndpointMissing),
        Some(TrackList::Folder(f)) => Ok(&f.children),
        Some(TrackList::Special(s)) => {
            match s.name {
                crate::tracklist::SpecialTrackListName::Root => Ok(&s.children),
            }
        },
        Some(TrackList::Playlist(_)) => Err(LibError::MoveEndpointNotFolder),
    }
}

/// Detaches `id` from `from_id`'s children and appends it under `to_id`.
///
/// The destination is validated, and the move rejected when `to_id` is a
/// transitive child of `id`, before anything is mutated; a failed check
/// leaves the tree exactly as it was.
pub fn move_playlist(lib: &mut Library, id: &String, from_id: &String, to_id: &String) -> (r:
    Result<(), LibError>)
    requires
        old(lib).track_lists.wf(),
    ensures
        lists_only_changed(*old(lib), *final(lib)),
        final(lib).track_lists.wf(),
        r is Err ==> *final(lib) == *old(lib),
        match r {
            Ok(()) => {
                let es = old(lib).track_lists.entries@;
                let fi = old(lib).track_lists.key_index(from_id@);
                let ti = old(lib).track_lists.key_index(to_id@);
                &&& old(lib).track_lists.spec_get(id@) matches Some(l) && !(l is Special)
                &&& old(lib).track_lists.spec_get(to_id@) matches Some(t) && !(t is Playlist)
                &&& !reaches(*old(lib), id@, to_id@)
                &&& to_id@ != id@
                &&& old(lib).track_lists.spec_get(from_id@) matches Some(f) && !(f
                    is Playlist) && ids_view(f.spec_children()).contains(id@)
                &&& keys_unchanged(*old(lib), *final(lib))
                &&& forall|j: int|
                    0 <= j < es.len() && j != fi && j != ti
                        ==> #[trigger] final(lib).track_lists.entries@[j] == es[j]
                &&& (if fi == ti {
                    children_replaced(
                        es[fi].1,
                        final(lib).track_lists.entries@[fi].1,
                        remove_first_id(es[fi].1.spec_children(), id@).push(*id),
                    )
                } else {
                    children_replaced(
                        es[fi].1,
                        final(lib).track_lists.entries@[fi].1,
                        remove_first_id(es[fi].1.spec_children(), id@),
                    ) && children_replaced(
                        es[ti].1,
                        final(lib).track_lists.entries@[ti].1,
                        es[ti].1.spec_children().push(*id),
                    )
                })
            },
            Err(e) => {
                let m = old(lib).track_lists;
                match e {
                    LibError::CannotMoveSpecial => m.spec_get(id@) matches Some(l) && l
                        is Special,
                    LibError::ListNotFound => !m.contains_key(id@),
                    LibError::TracklistNotFound => exists|x: Seq<char>|
                        reaches(*old(lib), id@, x) && !m.contains_key(x),
                    LibError::MoveEndpointMissing => !m.contains_key(to_id@)
                        || !m.contains_key(from_id@),
                    LibError::MoveEndpointNotFolder => (m.spec_get(to_id@) matches Some(t)
                        && t is Playlist) || (m.spec_get(from_id@) matches Some(f) && f
                        is Playlist),
                    LibError::MoveIntoDescendant => reaches(*old(lib), id@, to_id@)
                        || to_id@ == id@,
                    LibError::MoveSourceMissingChild => m.spec_get(from_id@) matches Some(f)
                        && !ids_view(f.spec_children()).contains(id@),
                    _ => false,
                }
            },
        },
{
    match lib.track_lists.get(id) {
        Some(TrackList::Special(_)) => {
            return Err(LibError::CannotMoveSpecial);
        },
        None => {
            return Err(LibError::ListNotFound);
        },
        _ => {},
    }
    // check that to_id is valid before anything is removed from from_id
    let ti = match lib.track_lists.index_of(to_id) {
        Some(i) => i,
        None => {
            return Err(LibError::MoveEndpointMissing);
        },
    };
    proof {
        old(lib).track_lists.lemma_get_by_index(ti as int);
    }
    match lib.track_lists.value_at(ti) {
        TrackList::Playlist(_) => {
            return Err(LibError::MoveEndpointNotFolder);
        },
        _ => {},
    }
    let descendants = match get_all_tracklist_children(lib, id) {
        Ok(v) => v,
        Err(e) => {
            return Err(e);
        },
    };
    if vec_contains_str(&descendants, to_id) {
        return Err(LibError::MoveIntoDescendant);
    }
    // a list is its own descendant in spirit: moving it under itself
    // would close a cycle the walk above cannot see
    if crate::strutil::str_eq(id.as_str(), to_id.as_str()) {
        return Err(LibError::MoveIntoDescendant);
    }
    let fi = match lib.track_lists.index_of(from_id) {
        Some(i) => i,
        None => {
            return Err(LibError::MoveEndpointMissing);
        },
    };
    proof {
        old(lib).track_lists.lemma_get_by_index(fi as int);
    }
    let from_children: &Vec<String> = match lib.track_lists.value_at(fi) {
        TrackList::Folder(f) => &f.children,
        TrackList::Special(s) => &s.children,
        TrackList::Playlist(_) => {
            return Err(LibError::MoveEndpointNotFolder);
        },
    };
    let pos = match crate::strutil::find_first(from_children, id) {
        Some(j) => j,
        None => {
            return Err(LibError::MoveSourceMissingChild);
        },
    };
    proof {
        ids_view(old(lib).track_lists.entries@[fi as int].1.spec_children())
            .index_of_first_ensures(id@);
    }
    let fnode = lib.track_lists.value_at_mut(fi);
    match fnode {
        TrackList::Folder(f) => {
            f.children.remove(pos);
        },
        TrackList::Special(s) => {
            s.children.remove(pos);
        },
        TrackList::Playlist(_) => {
            proof {
                assert(false);
            }
        },
    }
    proof {
        assert(lib.track_lists.keys() =~= old(lib).track_lists.keys());
    }
    let idc = id.clone();
    let tnode = lib.track_lists.value_at_mut(ti);
    match tnode {
        TrackList::Folder(f) => {
            f.children.push(idc);
        },
        TrackList::Special(s) => {
            s.children.push(idc);
        },
        TrackList::Playlist(_) => {
            proof {
                assert(false);
            }
        },
    }
    proof {
        assert(lib.track_lists.keys() =~= old(lib).track_lists.keys());
    }
    Ok(())
}

} // verus!
