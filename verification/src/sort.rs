//! The type-dispatched sort engine.
//!
//! Sorting a second time by the current key reverses the order in place;
//! the `"index"` sentinel re-derives a playlist's stored manual order; any
//! other key stable-sorts the open id sequence by the resolved track field,
//! ascending, then flips once when the key's base direction is descending.
//! Text is the only kind whose base direction is ascending, and an absent
//! or empty text value sorts after every non-empty one.

use vstd::prelude::*;

use crate::data::Data;
use crate::error::LibError;
use crate::num64::{is_nan_bits, le_bits, n64_is_nan, n64_le};
use crate::omap::OMap;
use crate::strutil::{clone_ids, str_eq};
use crate::track::{
    get_field_bool, get_field_f64_bits, get_field_i16, get_field_i32, get_field_i64,
    get_field_str, get_field_u8, get_track_field_type, spec_field_bool, spec_field_f64_bits,
    spec_field_i16, spec_field_i32, spec_field_i64, spec_field_str, spec_field_u8,
    spec_track_field_type, Track, TrackField,
};
use crate::tracklist::TrackList;

verus! {

/// Sign of the alphanumeric comparison of two character sequences.
pub uninterp spec fn alphanum_cmp(a: Seq<char>, b: Seq<char>) -> int;

/// Relies on alphanumeric_sort::compare_str: a comparison that orders
/// embedded ASCII digit runs by numeric value; its result depends on the
/// two character sequences alone.
#[verifier::external_body]
fn compare_alphanumeric(a: &str, b: &str) -> (r: i8)
    ensures
        -1 <= r <= 1,
        r as int == alphanum_cmp(a@, b@),
{
    match alphanumeric_sort::compare_str(a, b) {
        core::cmp::Ordering::Less => -1,
        core::cmp::Ordering::Equal => 0,
        core::cmp::Ordering::Greater => 1,
    }
}

pub open spec fn str_opt_view(o: Option<String>) -> Seq<char> {
    match o {
        Some(s) => s@,
        None => Seq::empty(),
    }
}

/// Text ordering: two empties tie, an empty sorts after any non-empty,
/// otherwise the alphanumeric comparison decides.
pub open spec fn str_le(a: Seq<char>, b: Seq<char>) -> bool {
    if a.len() == 0 && b.len() == 0 {
        true
    } else if a.len() == 0 {
        false
    } else if b.len() == 0 {
        true
    } else {
        alphanum_cmp(a, b) <= 0
    }
}

pub open spec fn bits_or_zero(o: Option<u64>) -> u64 {
    match o {
        Some(b) => b,
        None => 0,
    }
}

/// Field-wise "not after" between two tracks under the given key.
pub open spec fn field_le(ta: Track, tb: Track, key: Seq<char>) -> bool {
    match spec_track_field_type(key) {
        Some(TrackField::String) => str_le(
            str_opt_view(spec_field_str(ta, key)),
            str_opt_view(spec_field_str(tb, key)),
        ),
        Some(TrackField::F64) => n64_le(
            bits_or_zero(spec_field_f64_bits(ta, key)),
            bits_or_zero(spec_field_f64_bits(tb, key)),
        ),
        Some(TrackField::I64) => spec_field_i64(ta, key).unwrap_or(0)
            <= spec_field_i64(tb, key).unwrap_or(0),
        Some(TrackField::I32) => spec_field_i32(ta, key).unwrap_or(0)
            <= spec_field_i32(tb, key).unwrap_or(0),
        Some(TrackField::I16) => spec_field_i16(ta, key).unwrap_or(0)
            <= spec_field_i16(tb, key).unwrap_or(0),
        Some(TrackField::U8) => spec_field_u8(ta, key).unwrap_or(0)
            <= spec_field_u8(tb, key).unwrap_or(0),
        Some(TrackField::Bool) => !spec_field_bool(ta, key).unwrap_or(false)
            || spec_field_bool(tb, key).unwrap_or(false),
        None => true,
    }
}

/// "Not after" between two catalog ids under the given key.
pub open spec fn track_le(cat: OMap<Track>, key: Seq<char>, a: String, b: String) -> bool {
    match (cat.spec_get(a@), cat.spec_get(b@)) {
        (Some(ta), Some(tb)) => field_le(ta, tb, key),
        _ => true,
    }
}

pub open spec fn track_le_fn(cat: OMap<Track>, key: Seq<char>) -> spec_fn(String, String) -> bool {
    |a: String, b: String| track_le(cat, key, a, b)
}

/// The float field of the track under `id` is not a NaN encoding; vacuous
/// for other kinds and for absent tracks.
pub open spec fn nan_free(cat: OMap<Track>, key: Seq<char>, id: Seq<char>) -> bool {
    match cat.spec_get(id) {
        Some(t) => !n64_is_nan(bits_or_zero(spec_field_f64_bits(t, key))),
        None => true,
    }
}

/// Every id of `s` resolves in the catalog, with a well-formed float field
/// when the key is float-kinded.
pub open spec fn sortable(cat: OMap<Track>, key: Seq<char>, s: Seq<String>) -> bool {
    forall|j: int|
        0 <= j < s.len() ==> cat.spec_get((#[trigger] s[j])@) is Some && (
        spec_track_field_type(key) == Some(TrackField::F64) ==> nan_free(cat, key, s[j]@))
}

fn track_le_exec(cat: &OMap<Track>, field: TrackField, key: &str, a: &String, b: &String) -> (r:
    bool)
    requires
        spec_track_field_type(key@) == Some(field),
        cat.spec_get(a@) is Some,
        cat.spec_get(b@) is Some,
        field == TrackField::F64 ==> nan_free(*cat, key@, a@) && nan_free(*cat, key@, b@),
    ensures
        r == track_le(*cat, key@, *a, *b),
{
    let ta = match cat.get(a) {
        Some(t) => t,
        None => {
            proof {
                assert(false);
            }
            return true;
        },
    };
    let tb = match cat.get(b) {
        Some(t) => t,
        None => {
            proof {
                assert(false);
            }
            return true;
        },
    };
    match field {
        TrackField::String => {
            let sa = get_field_str(ta, key);
            let sb = get_field_str(tb, key);
            let ea = match sa {
                Some(s) => s.as_str().is_empty(),
                None => true,
            };
            let eb = match sb {
                Some(s) => s.as_str().is_empty(),
                None => true,
            };
            if ea && eb {
                true
            } else if ea {
                false
            } else if eb {
                true
            } else {
                let va = match sa {
                    Some(s) => s,
                    None => {
                        proof {
                            assert(false);
                        }
                        return true;
                    },
                };
                let vb = match sb {
                    Some(s) => s,
                    None => {
                        proof {
                            assert(false);
                        }
                        return true;
                    },
                };
                compare_alphanumeric(va.as_str(), vb.as_str()) <= 0
            }
        },
        TrackField::F64 => {
            let na = get_field_f64_bits(ta, key).unwrap_or(0);
            let nb = get_field_f64_bits(tb, key).unwrap_or(0);
            le_bits(na, nb)
        },
        TrackField::I64 => {
            let na = get_field_i64(ta, key).unwrap_or(0);
            let nb = get_field_i64(tb, key).unwrap_or(0);
            na <= nb
        },
        TrackField::I32 => {
            let na = get_field_i32(ta, key).unwrap_or(0);
            let nb = get_field_i32(tb, key).unwrap_or(0);
            na <= nb
        },
        TrackField::I16 => {
            let na = get_field_i16(ta, key).unwrap_or(0);
            let nb = get_field_i16(tb, key).unwrap_or(0);
            na <= nb
        },
        TrackField::U8 => {
            let na = get_field_u8(ta, key).unwrap_or(0);
            let nb = get_field_u8(tb, key).unwrap_or(0);
            na <= nb
        },
        TrackField::Bool => {
            let va = get_field_bool(ta, key).unwrap_or(false);
            let vb = get_field_bool(tb, key).unwrap_or(false);
            !va || vb
        },
    }
}

/// `x` placed into the sorted sequence `s`, after every element not after
/// it: the insertion step of a stable insertion sort.
pub open spec fn spec_insert_sorted(
    le: spec_fn(String, String) -> bool,
    s: Seq<String>,
    x: String,
) -> Seq<String>
    decreases s.len(),
{
    if s.len() == 0 {
        seq![x]
    } else if le(s.last(), x) {
        s.push(x)
    } else {
        spec_insert_sorted(le, s.drop_last(), x).push(s.last())
    }
}

/// Stable insertion sort, left to right.
pub open spec fn spec_sort_by(le: spec_fn(String, String) -> bool, s: Seq<String>) -> Seq<
    String,
>
    decreases s.len(),
{
    if s.len() == 0 {
        Seq::empty()
    } else {
        spec_insert_sorted(le, spec_sort_by(le, s.drop_last()), s.last())
    }
}

fn insert_sorted(
    cat: &OMap<Track>,
    field: TrackField,
    key: &str,
    sorted: Vec<String>,
    x: String,
) -> (r: Vec<String>)
    requires
        spec_track_field_type(key@) == Some(field),
        sortable(*cat, key@, sorted@),
        cat.spec_get(x@) is Some,
        field == TrackField::F64 ==> nan_free(*cat, key@, x@),
    ensures
        r@ == spec_insert_sorted(track_le_fn(*cat, key@), sorted@, x),
        forall|j: int| 0 <= j < r@.len() ==> #[trigger] r@[j] == x || sorted@.contains(r@[j]),
    decreases sorted@.len(),
{
    let n = sorted.len();
    if n == 0 {
        let mut v: Vec<String> = Vec::new();
        v.push(x);
        proof {
            assert(v@ =~= seq![x]);
        }
        v
    } else if track_le_exec(cat, field, key, &sorted[n - 1], &x) {
        let mut v = sorted;
        v.push(x);
        proof {
            assert(v@.drop_last() =~= sorted@);
        }
        v
    } else {
        let mut v = sorted;
        let last = match v.pop() {
            Some(l) => l,
            None => {
                proof {
                    assert(false);
                }
                return Vec::new();
            },
        };
        proof {
            assert(v@ =~= sorted@.drop_last());
            assert(sortable(*cat, key@, v@)) by {
                assert(forall|j: int| 0 <= j < v@.len() ==> v@[j] == sorted@[j]);
            }
        }
        let mut r = insert_sorted(cat, field, key, v, x);
        r.push(last);
        proof {
            assert(last == sorted@.last());
            assert(r@.drop_last() == spec_insert_sorted(
                track_le_fn(*cat, key@),
                sorted@.drop_last(),
                x,
            ));
            assert(r@ =~= spec_insert_sorted(track_le_fn(*cat, key@), sorted@, x));
            assert forall|j: int|
                0 <= j < r@.len() implies #[trigger] r@[j] == x || sorted@.contains(
                r@[j],
            ) by {
                if j < r@.len() - 1 && r@[j] != x {
                    assert(sorted@.drop_last().contains(r@[j]));
                    let j2 = choose|j2: int|
                        0 <= j2 < sorted@.drop_last().len() && sorted@.drop_last()[j2]
                            == r@[j];
                    assert(sorted@[j2] == r@[j]);
                } else if j == r@.len() - 1 {
                    assert(r@[j] == sorted@.last());
                    assert(sorted@.contains(sorted@.last()));
                }
            }
        }
        r
    }
}

fn sort_ids(cat: &OMap<Track>, field: TrackField, key: &str, ids: &Vec<String>) -> (r: Vec<
    String,
>)
    requires
        spec_track_field_type(key@) == Some(field),
        sortable(*cat, key@, ids@),
    ensures
        r@ == spec_sort_by(track_le_fn(*cat, key@), ids@),
{
    let mut out: Vec<String> = Vec::new();
    let n = ids.len();
    let mut i: usize = 0;
    proof {
        assert(ids@.subrange(0, 0) =~= Seq::<String>::empty());
    }
    while i < n
        invariant
            n == ids@.len(),
            i <= n,
            spec_track_field_type(key@) == Some(field),
            sortable(*cat, key@, ids@),
            out@ == spec_sort_by(track_le_fn(*cat, key@), ids@.subrange(0, i as int)),
            sortable(*cat, key@, out@),
        decreases n - i,
    {
        let ghost prefix = ids@.subrange(0, i as int);
        let x = ids[i].clone();
        proof {
            assert(x == ids@[i as int]);
            assert(cat.spec_get(x@) is Some && (spec_track_field_type(key@) == Some(
                TrackField::F64,
            ) ==> nan_free(*cat, key@, x@))) by {
                assert(ids@[i as int] == x);
            }
        }
        let ghost old_out = out@;
        let new_out = insert_sorted(cat, field, key, out, x);
        out = new_out;
        proof {
            assert(ids@.subrange(0, i + 1 as int).drop_last() =~= prefix);
            assert(ids@.subrange(0, i + 1 as int).last() == ids@[i as int]);
            assert(out@ == spec_sort_by(
                track_le_fn(*cat, key@),
                ids@.subrange(0, i + 1 as int),
            ));
            assert forall|j: int|
                0 <= j < out@.len() implies cat.spec_get((#[trigger] out@[j])@) is Some && (
            spec_track_field_type(key@) == Some(TrackField::F64) ==> nan_free(
                *cat,
                key@,
                out@[j]@,
            )) by {
                if out@[j] != x {
                    assert(old_out.contains(out@[j]));
                    let j2 = choose|j2: int| 0 <= j2 < old_out.len() && old_out[j2] == out@[j];
                    assert(cat.spec_get((old_out[j2])@) is Some && (spec_track_field_type(
                        key@,
                    ) == Some(TrackField::F64) ==> nan_free(*cat, key@, old_out[j2]@)));
                }
            }
        }
        i = i + 1;
    }
    proof {
        assert(ids@.subrange(0, n as int) =~= ids@);
    }
    out
}

/// The sequence reversed.
pub fn reverse_ids(v: &Vec<String>) -> (r: Vec<String>)
    ensures
        r@ == v@.reverse(),
{
    let n = v.len();
    let mut out: Vec<String> = Vec::new();
    let mut i: usize = n;
    while i > 0
        invariant
            n == v@.len(),
            i <= n,
            out@.len() == n - i,
            forall|j: int| 0 <= j < out@.len() ==> #[trigger] out@[j] == v@[n - 1 - j],
        decreases i,
    {
        i = i - 1;
        out.push(v[i].clone());
    }
    proof {
        assert(out@ =~= v@.reverse());
    }
    out
}

/// Fields of the view state that sorting never touches.
pub open spec fn same_but_sort_state(a: Data, b: Data) -> bool {
    &&& b.paths == a.paths
    &&& b.library == a.library
    &&& b.view_options == a.view_options
    &&& b.page_track_ids == a.page_track_ids
    &&& b.open_playlist_id == a.open_playlist_id
    &&& b.filter == a.filter
    &&& b.group_album_tracks == a.group_album_tracks
}

/// The exact outcome of one `sort` call: `pre` and `post` are the view
/// states before and after, `key` the requested key, `r` the result.
pub open spec fn sort_spec(
    pre: Data,
    post: Data,
    key: Seq<char>,
    r: Result<(), LibError>,
) -> bool {
    if key == pre.sort_key@ {
        &&& r is Ok
        &&& post.open_playlist_track_ids@ == pre.open_playlist_track_ids@.reverse()
        &&& post.sort_desc == !pre.sort_desc
        &&& post.sort_key == pre.sort_key
    } else if key == "index"@ {
        match pre.library.track_lists.spec_get(pre.open_playlist_id@) {
            Some(TrackList::Playlist(p)) => {
                &&& r is Ok
                &&& post.open_playlist_track_ids@ == p.tracks@
                &&& post.sort_key@ == "index"@
                &&& post.sort_desc == true
            },
            Some(_) => r is Ok && post == pre,
            None => (r matches Err(e) && e == LibError::PlaylistIdNotFound) && post == pre,
        }
    } else {
        let le = track_le_fn(pre.library.tracks, key);
        let ascending = spec_sort_by(le, pre.open_playlist_track_ids@);
        let text = spec_track_field_type(key) == Some(TrackField::String);
        &&& r is Ok
        &&& post.open_playlist_track_ids@ == if text {
            ascending
        } else {
            ascending.reverse()
        }
        &&& post.sort_key@ == key
        &&& post.sort_desc == !text
    }
}

/// Sorts the open id sequence by `sort_key` and records the key and
/// direction, as described in the module documentation.
pub fn sort(data: &mut Data, sort_key: &str) -> (r: Result<(), LibError>)
    requires
        old(data).library.track_lists.wf(),
        sort_key@ == old(data).sort_key@ || sort_key@ == "index"@ || (spec_track_field_type(
            sort_key@,
        ) is Some && sortable(
            old(data).library.tracks,
            sort_key@,
            old(data).open_playlist_track_ids@,
        )),
    ensures
        same_but_sort_state(*old(data), *final(data)),
        sort_spec(*old(data), *final(data), sort_key@, r),
{
    if str_eq(sort_key, data.sort_key.as_str()) {
        let rev = reverse_ids(&data.open_playlist_track_ids);
        data.open_playlist_track_ids = rev;
        data.sort_desc = !data.sort_desc;
        return Ok(());
    }
    if str_eq(sort_key, "index") {
        let idx = match data.library.track_lists.index_of(&data.open_playlist_id) {
            Some(i) => i,
            None => {
                return Err(LibError::PlaylistIdNotFound);
            },
        };
        proof {
            data.library.track_lists.lemma_get_by_index(idx as int);
        }
        match data.library.track_lists.value_at(idx) {
            TrackList::Playlist(p) => {
                let ids = clone_ids(&p.tracks);
                data.open_playlist_track_ids = ids;
                data.sort_key = String::from_str("index");
                data.sort_desc = true;
                return Ok(());
            },
            _ => {
                return Ok(());
            },
        }
    }
    let field = match get_track_field_type(sort_key) {
        Some(f) => f,
        None => {
            proof {
                assert(false);
            }
            return Err(LibError::PlaylistIdNotFound);
        },
    };
    let sorted = sort_ids(&data.library.tracks, field, sort_key, &data.open_playlist_track_ids);
    let text = match field {
        TrackField::String => true,
        _ => false,
    };
    if text {
        data.open_playlist_track_ids = sorted;
    } else {
        let rev = reverse_ids(&sorted);
        data.open_playlist_track_ids = rev;
    }
    data.sort_key = sort_key.to_owned();
    data.sort_desc = !text;
    Ok(())
}

} // verus!
