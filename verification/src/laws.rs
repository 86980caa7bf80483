//! Laws that relate several operations, stated once and proved from the
//! operations' contracts: the sort toggle, the index sentinel's restore of
//! manual order, placement of empty text values, rootedness of every list,
//! and preservation of the tree invariant by each structural edit.

use vstd::prelude::*;

use crate::data::Data;
use crate::library::Library;
use crate::omap::OMap;
use crate::sort::{
    sort_spec, spec_insert_sorted, spec_sort_by, str_opt_view, track_le_fn,
};
use crate::strutil::ids_view;
use crate::track::{spec_field_str, spec_track_field_type, Track, TrackField};
use crate::tracklist::TrackList;
use crate::tree::{
    edge, is_path, lemma_edge_reaches, lemma_reaches_extend, lists_wf, reaches,
};
use crate::error::LibError;

verus! {

/// Sorting by a key and then by the same key again reverses the order the
/// first sort produced and flips the direction flag, for any key but the
/// index sentinel.
pub proof fn lemma_sort_toggle(
    d0: Data,
    d1: Data,
    d2: Data,
    key: Seq<char>,
    r1: Result<(), LibError>,
    r2: Result<(), LibError>,
)
    requires
        key != "index"@,
        r1 is Ok,
        r2 is Ok,
        sort_spec(d0, d1, key, r1),
        sort_spec(d1, d2, key, r2),
    ensures
        d2.open_playlist_track_ids@ == d1.open_playlist_track_ids@.reverse(),
        d2.sort_desc == !d1.sort_desc,
{
    assert(d1.sort_key@ == key);
}

/// Sorting by the index sentinel on an open playlist reproduces the
/// playlist's stored manual order, whatever sort was active before —
/// except when the index sort itself was active, which is the documented
/// toggle back to reverse manual order.
pub proof fn lemma_index_sort_restores_manual_order(
    d0: Data,
    d1: Data,
    p: crate::tracklist::Playlist,
    r: Result<(), LibError>,
)
    requires
        d0.sort_key@ != "index"@,
        d0.library.track_lists.spec_get(d0.open_playlist_id@) == Some(TrackList::Playlist(p)),
        sort_spec(d0, d1, "index"@, r),
    ensures
        r is Ok,
        d1.open_playlist_track_ids@ == p.tracks@,
        d1.sort_key@ == "index"@,
        d1.sort_desc == true,
{
}

/// Two trees with the same keys and the same child sequences, entry by
/// entry, have the same edges and the same reachability.
pub proof fn lemma_same_children_same_reaches(a: Library, b: Library)
    requires
        b.track_lists.entries@.len() == a.track_lists.entries@.len(),
        forall|j: int|
            0 <= j < a.track_lists.entries@.len()
                ==> (#[trigger] b.track_lists.entries@[j]).0@ == a.track_lists.entries@[j].0@
                && b.track_lists.entries@[j].1.child_ids()
                == a.track_lists.entries@[j].1.child_ids(),
    ensures
        forall|x: Seq<char>, y: Seq<char>| edge(b, x, y) == edge(a, x, y),
        forall|x: Seq<char>, y: Seq<char>| reaches(b, x, y) == reaches(a, x, y),
{
    assert forall|x: Seq<char>, y: Seq<char>| edge(b, x, y) == edge(a, x, y) by {
        lemma_assoc_children(a.track_lists.entries@, b.track_lists.entries@, x);
    }
    assert forall|x: Seq<char>, y: Seq<char>| reaches(b, x, y) == reaches(a, x, y) by {
        if reaches(b, x, y) {
            let pth = choose|pth: Seq<Seq<char>>|
                is_path(b, pth) && pth.first() == x && pth.last() == y;
            assert(forall|i: int|
                0 <= i < pth.len() - 1 ==> edge(a, pth[i], #[trigger] pth[i + 1]));
            assert(is_path(a, pth));
        }
        if reaches(a, x, y) {
            let pth = choose|pth: Seq<Seq<char>>|
                is_path(a, pth) && pth.first() == x && pth.last() == y;
            assert(forall|i: int|
                0 <= i < pth.len() - 1 ==> edge(b, pth[i], #[trigger] pth[i + 1]));
            assert(is_path(b, pth));
        }
    }
}

/// Looked up under the same key, two entry sequences that agree on keys
/// and child sequences yield values with the same child sequence.
proof fn lemma_assoc_children(
    ea: Seq<(String, TrackList)>,
    eb: Seq<(String, TrackList)>,
    x: Seq<char>,
)
    requires
        eb.len() == ea.len(),
        forall|j: int|
            0 <= j < ea.len() ==> (#[trigger] eb[j]).0@ == ea[j].0@ && eb[j].1.child_ids()
                == ea[j].1.child_ids(),
    ensures
        match (crate::omap::assoc_get(ea, x), crate::omap::assoc_get(eb, x)) {
            (Some(va), Some(vb)) => va.child_ids() == vb.child_ids(),
            (None, None) => true,
            _ => false,
        },
    decreases ea.len(),
{
    if ea.len() > 0 {
        assert(eb[0].0@ == ea[0].0@);
        if ea[0].0@ != x {
            assert(forall|j: int|
                0 <= j < ea.drop_first().len() ==> (#[trigger] eb.drop_first()[j]).0@
                    == ea.drop_first()[j].0@ && eb.drop_first()[j].1.child_ids()
                    == ea.drop_first()[j].1.child_ids());
            lemma_assoc_children(ea.drop_first(), eb.drop_first(), x);
        }
    }
}

/// A tree edit that only rewrites values — same keys, same child
/// sequences, same ids, same variants — keeps the whole invariant.
pub proof fn lemma_wf_preserved_same_structure(a: Library, b: Library)
    requires
        lists_wf(a),
        b.track_lists.entries@.len() == a.track_lists.entries@.len(),
        forall|j: int|
            0 <= j < a.track_lists.entries@.len()
                ==> (#[trigger] b.track_lists.entries@[j]).0@ == a.track_lists.entries@[j].0@
                && b.track_lists.entries@[j].1.child_ids()
                == a.track_lists.entries@[j].1.child_ids()
                && b.track_lists.entries@[j].1.spec_id()
                == a.track_lists.entries@[j].1.spec_id() && ((b.track_lists.entries@[j].1
                is Special) <==> (a.track_lists.entries@[j].1 is Special)),
    ensures
        lists_wf(b),
{
    assert(b.track_lists.keys() =~= a.track_lists.keys());
    lemma_same_children_same_reaches(a, b);
    let ki = a.track_lists.key_index("root"@);
    a.track_lists.lemma_key_index("root"@);
    assert(a.track_lists.entries@[ki].1 is Special);
    assert(b.track_lists.wf());
    b.track_lists.lemma_get_by_index(ki);
    assert(b.track_lists.entries@[ki].0@ == "root"@);
    assert(b.track_lists.spec_get("root"@) matches Some(TrackList::Special(_))) by {
        assert(b.track_lists.entries@[ki].1 is Special);
    }
    assert(forall|x: Seq<char>| !reaches(b, x, x));
    let es = b.track_lists.entries@;
    let esa = a.track_lists.entries@;
    assert(forall|x: Seq<char>|
        b.track_lists.contains_key(x) == a.track_lists.contains_key(x));
    assert(b.track_lists.contains_key("root"@));
    assert(forall|i: int| 0 <= i < es.len() ==> (#[trigger] es[i].1).spec_id() == es[i].0@);
    assert forall|i: int|
        0 <= i < es.len() && ((#[trigger] es[i].1) matches TrackList::Special(_)) implies
        es[i].0@ == "root"@ by {
        assert(esa[i].1 is Special);
    }
    assert forall|i: int, j: int|
        0 <= i < es.len() && 0 <= j < (#[trigger] es[i].1).child_ids().len() implies
        b.track_lists.contains_key(#[trigger] es[i].1.child_ids()[j]) && es[i].1.child_ids()[j]
        != "root"@ by {
        assert(es[i].1.child_ids() == esa[i].1.child_ids());
        assert(a.track_lists.contains_key(esa[i].1.child_ids()[j]));
        assert(esa[i].1.child_ids()[j] != "root"@);
    }
    assert(forall|i: int|
        0 <= i < es.len() ==> (#[trigger] es[i].1).child_ids().no_duplicates());
    assert forall|i: int|
        0 <= i < es.len() && (#[trigger] es[i].0)@ != "root"@ implies exists|pi: int, j: int|
        0 <= pi < es.len() && 0 <= j < es[pi].1.child_ids().len()
            && #[trigger] es[pi].1.child_ids()[j] == es[i].0@ by {
        assert(esa[i].0@ != "root"@);
        let (pi, j): (int, int) = choose|pi: int, j: int|
            0 <= pi < esa.len() && 0 <= j < esa[pi].1.child_ids().len()
                && #[trigger] esa[pi].1.child_ids()[j] == esa[i].0@;
        assert(es[pi].1.child_ids()[j] == es[i].0@);
    }
}

/// Edits that only rewrite playlist track sequences — appending tracks,
/// removing rows by index, deleting a track everywhere — keep the tree
/// invariant: no playlist carries children, so the hierarchy is untouched.
pub proof fn lemma_track_membership_edit_preserves_wf(a: Library, b: Library)
    requires
        lists_wf(a),
        b.track_lists.entries@.len() == a.track_lists.entries@.len(),
        forall|j: int|
            0 <= j < a.track_lists.entries@.len()
                ==> (#[trigger] b.track_lists.entries@[j]).0@ == a.track_lists.entries@[j].0@
                && (b.track_lists.entries@[j] == a.track_lists.entries@[j] || exists|
                ts: Seq<String>,
            |
                crate::tracklist::tracks_replaced(
                    a.track_lists.entries@[j].1,
                    b.track_lists.entries@[j].1,
                    ts,
                )),
    ensures
        lists_wf(b),
{
    assert forall|j: int|
        0 <= j < a.track_lists.entries@.len() implies (
    #[trigger] b.track_lists.entries@[j]).1.child_ids()
        == a.track_lists.entries@[j].1.child_ids() && b.track_lists.entries@[j].1.spec_id()
        == a.track_lists.entries@[j].1.spec_id() && ((b.track_lists.entries@[j].1 is Special)
        <==> (a.track_lists.entries@[j].1 is Special)) by {
        if b.track_lists.entries@[j] != a.track_lists.entries@[j] {
            let ts = choose|ts: Seq<String>|
                crate::tracklist::tracks_replaced(
                    a.track_lists.entries@[j].1,
                    b.track_lists.entries@[j].1,
                    ts,
                );
            assert(a.track_lists.entries@[j].1.child_ids()
                =~= b.track_lists.entries@[j].1.child_ids());
        }
    }
    lemma_wf_preserved_same_structure(a, b);
}

/// P1 after create, in the exact shape a caller of `new_playlist` holds:
/// the facts of its success contract alone imply the tree invariant of
/// the new state.
pub proof fn lemma_new_playlist_contract_preserves_wf(
    a: Library,
    b: Library,
    parent_id: String,
    nid: String,
    is_folder: bool,
)
    requires
        lists_wf(a),
        a.track_lists.contains_key(parent_id@),
        !a.track_lists.contains_key(nid@),
        ({
            let es = a.track_lists.entries@;
            let pi = a.track_lists.key_index(parent_id@);
            &&& !(es[pi].1 is Playlist)
            &&& b.track_lists.entries@.len() == es.len() + 1
            &&& (forall|j: int|
                0 <= j < es.len() && j != pi ==> #[trigger] b.track_lists.entries@[j]
                    == es[j])
            &&& b.track_lists.entries@[pi].0 == es[pi].0
            &&& crate::tracklist::children_replaced(
                es[pi].1,
                b.track_lists.entries@[pi].1,
                es[pi].1.spec_children().push(nid),
            )
            &&& b.track_lists.entries@[es.len() as int].0 == nid
            &&& (if is_folder {
                b.track_lists.entries@[es.len() as int].1 matches TrackList::Folder(g)
                    && g.id == nid && g.children@.len() == 0
            } else {
                b.track_lists.entries@[es.len() as int].1 matches TrackList::Playlist(q)
                    && q.id == nid
            })
        }),
    ensures
        lists_wf(b),
{
    let es = a.track_lists.entries@;
    let nb = b.track_lists.entries@[es.len() as int].1;
    assert(nb.spec_id() == nid@);
    assert(nb.child_ids().len() == 0) by {
        if is_folder {
        } else {
            assert(nb.spec_children() =~= Seq::<String>::empty());
        }
    }
    assert(!(nb is Special));
    lemma_new_list_preserves_wf(a, b, parent_id@, nid@);
}

/// A freshly bootstrapped library satisfies the tree invariant: the root
/// special list stands alone, with nothing to orphan and nothing to cycle.
pub proof fn lemma_bootstrap_wf(lib: Library)
    requires
        lib.track_lists.entries@.len() == 1,
        lib.track_lists.entries@[0].0@ == "root"@,
        lib.track_lists.entries@[0].1 matches TrackList::Special(s) && s.id@ == "root"@
            && s.children@.len() == 0,
    ensures
        lists_wf(lib),
{
    assert(lib.track_lists.keys() =~= seq!["root"@]);
    assert(lib.track_lists.contains_key("root"@)) by {
        assert(lib.track_lists.keys()[0] == "root"@);
    }
    assert(lib.track_lists.spec_get("root"@) == Some(lib.track_lists.entries@[0].1));
    assert forall|x: Seq<char>| !reaches(lib, x, x) by {
        if reaches(lib, x, x) {
            let p = choose|p: Seq<Seq<char>>|
                is_path(lib, p) && p.first() == x && p.last() == x;
            assert(edge(lib, p[0], p[0int + 1]));
            assert(lib.track_lists.entries@[0].1.child_ids().len() == 0);
            crate::omap::lemma_assoc_get_index(lib.track_lists.entries@, p[0]);
        }
    }
}

/// In a well-formed tree, every id but the root is a transitive child of
/// the root: there are no orphans.
pub proof fn lemma_wf_rooted(lib: Library, k: Seq<char>)
    requires
        lists_wf(lib),
        lib.track_lists.contains_key(k),
        k != "root"@,
    ensures
        reaches(lib, "root"@, k),
{
    climb(lib, k, Set::empty());
}

/// Walks up unique parents: the set `below` collects ids already passed,
/// all of them reachable from `k`; acyclicity keeps the walk from
/// revisiting, so it must end at the root.
proof fn climb(lib: Library, k: Seq<char>, below: Set<Seq<char>>)
    requires
        lists_wf(lib),
        lib.track_lists.contains_key(k),
        k != "root"@,
        below.finite(),
        below.subset_of(lib.track_lists.keys().to_set()),
        forall|x: Seq<char>| below.contains(x) ==> reaches(lib, k, x),
    ensures
        reaches(lib, "root"@, k),
    decreases lib.track_lists.entries@.len() - below.len(),
{
    let es = lib.track_lists.entries@;
    let ki = lib.track_lists.key_index(k);
    lib.track_lists.lemma_key_index(k);
    assert(exists|pi: int, j: int|
        0 <= pi < es.len() && 0 <= j < es[pi].1.child_ids().len()
            && #[trigger] es[pi].1.child_ids()[j] == es[ki].0@);
    let (pi, j): (int, int) = choose|pi: int, j: int|
        0 <= pi < es.len() && 0 <= j < es[pi].1.child_ids().len()
            && #[trigger] es[pi].1.child_ids()[j] == es[ki].0@;
    let p = es[pi].0@;
    lib.track_lists.lemma_get_by_index(pi);
    assert(edge(lib, p, k)) by {
        assert(lib.track_lists.spec_get(p) == Some(es[pi].1));
        assert(es[pi].1.child_ids().contains(k));
    }
    if p == "root"@ {
        lemma_edge_reaches(lib, p, k);
    } else {
        lemma_edge_reaches(lib, p, k);
        assert(!below.contains(k)) by {
            if below.contains(k) {
                assert(reaches(lib, k, k));
            }
        }
        let below2 = below.insert(k);
        assert(below2.finite());
        assert(below2.len() == below.len() + 1);
        assert(below2.subset_of(lib.track_lists.keys().to_set())) by {
            assert(lib.track_lists.keys()[ki] == k);
            assert(lib.track_lists.keys().to_set().contains(k));
        }
        assert(below2.len() <= lib.track_lists.entries@.len()) by {
            vstd::set_lib::lemma_len_subset(below2, lib.track_lists.keys().to_set());
            lib.track_lists.keys().lemma_cardinality_of_set();
        }
        assert forall|x: Seq<char>| below2.contains(x) implies reaches(lib, p, x) by {
            if x == k {
                assert(reaches(lib, p, k));
            } else {
                assert(reaches(lib, k, x));
                crate::tree::lemma_reaches_trans(lib, p, k, x);
            }
        }
        climb(lib, p, below2);
        lemma_reaches_extend(lib, "root"@, p, k);
    }
}

// -- text ordering ---------------------------------------------------------

/// The text value a sort key resolves to on the track under `id`; absent
/// values read as empty.
pub open spec fn text_value(cat: OMap<Track>, key: Seq<char>, id: String) -> Seq<char> {
    match cat.spec_get(id@) {
        Some(t) => str_opt_view(spec_field_str(t, key)),
        None => Seq::empty(),
    }
}

pub open spec fn text_empty_fn(cat: OMap<Track>, key: Seq<char>) -> spec_fn(String) -> bool {
    |id: String| text_value(cat, key, id).len() == 0
}

/// The ids with empty text values form a suffix of the sequence.
pub open spec fn empties_last(cat: OMap<Track>, key: Seq<char>, s: Seq<String>) -> bool {
    forall|i: int, j: int|
        0 <= i < j < s.len() && text_empty_fn(cat, key)(#[trigger] s[i]) ==> text_empty_fn(
            cat,
            key,
        )(#[trigger] s[j])
}

pub open spec fn all_in_catalog(cat: OMap<Track>, s: Seq<String>) -> bool {
    forall|j: int| 0 <= j < s.len() ==> cat.spec_get((#[trigger] s[j])@) is Some
}

/// Every element of an insertion step is the inserted id or one of the
/// old ones.
proof fn lemma_insert_membership(
    le: spec_fn(String, String) -> bool,
    s: Seq<String>,
    x: String,
)
    ensures
        spec_insert_sorted(le, s, x).len() == s.len() + 1,
        forall|j: int|
            0 <= j < spec_insert_sorted(le, s, x).len() ==> #[trigger] spec_insert_sorted(
                le,
                s,
                x,
            )[j] == x || s.contains(spec_insert_sorted(le, s, x)[j]),
    decreases s.len(),
{
    let r = spec_insert_sorted(le, s, x);
    if s.len() == 0 {
    } else if le(s.last(), x) {
        assert forall|j: int| 0 <= j < r.len() implies #[trigger] r[j] == x || s.contains(
            r[j],
        ) by {
            if j < s.len() {
                assert(s[j] == r[j]);
            }
        }
    } else {
        lemma_insert_membership(le, s.drop_last(), x);
        let inner = spec_insert_sorted(le, s.drop_last(), x);
        assert forall|j: int| 0 <= j < r.len() implies #[trigger] r[j] == x || s.contains(
            r[j],
        ) by {
            if j < r.len() - 1 {
                assert(r[j] == inner[j]);
                if inner[j] != x {
                    assert(s.drop_last().contains(inner[j]));
                    let k = choose|k: int|
                        0 <= k < s.drop_last().len() && s.drop_last()[k] == inner[j];
                    assert(s[k] == inner[j]);
                }
            } else {
                assert(r[j] == s.last());
                assert(s.contains(s.last()));
            }
        }
    }
}

/// One insertion keeps the empty values at the tail: a non-empty id is
/// carried left past every empty one, an empty id lands at the very end.
proof fn lemma_insert_keeps_empties_last(
    cat: OMap<Track>,
    key: Seq<char>,
    s: Seq<String>,
    x: String,
)
    requires
        spec_track_field_type(key) == Some(TrackField::String),
        all_in_catalog(cat, s),
        cat.spec_get(x@) is Some,
        empties_last(cat, key, s),
    ensures
        empties_last(cat, key, spec_insert_sorted(track_le_fn(cat, key), s, x)),
    decreases s.len(),
{
    let le = track_le_fn(cat, key);
    let r = spec_insert_sorted(le, s, x);
    let empty = text_empty_fn(cat, key);
    if s.len() == 0 {
        assert(empties_last(cat, key, r)) by {
            assert(r.len() == 1);
        }
    } else if le(s.last(), x) {
        assert(r == s.push(x));
        if empty(x) {
            assert forall|i: int, j: int|
                0 <= i < j < r.len() && empty(#[trigger] r[i]) implies empty(
                #[trigger] r[j],
            ) by {
                if j < s.len() {
                    assert(r[i] == s[i] && r[j] == s[j]);
                }
            }
        } else {
            assert(!empty(s.last())) by {
                if empty(s.last()) {
                    assert(text_value(cat, key, s.last()).len() == 0);
                    assert(text_value(cat, key, x).len() > 0);
                    assert(!le(s.last(), x));
                }
            }
            assert forall|i: int| 0 <= i < s.len() implies !empty(#[trigger] s[i]) by {
                if empty(s[i]) && i < s.len() - 1 {
                    assert(empty(s[s.len() - 1]));
                }
            }
            assert forall|i: int, j: int|
                0 <= i < j < r.len() && empty(#[trigger] r[i]) implies empty(
                #[trigger] r[j],
            ) by {
                if i < s.len() {
                    assert(r[i] == s[i]);
                }
            }
        }
    } else {
        // the comparison failed, so the last id is empty while `x` is
        // not, or both are non-empty
        lemma_insert_keeps_empties_last(cat, key, s.drop_last(), x);
        lemma_insert_membership(le, s.drop_last(), x);
        let inner = spec_insert_sorted(le, s.drop_last(), x);
        assert(r == inner.push(s.last()));
        assert(!empty(x)) by {
            if empty(x) {
                assert(le(s.last(), x));
            }
        }
        if empty(s.last()) {
            assert forall|i: int, j: int|
                0 <= i < j < r.len() && empty(#[trigger] r[i]) implies empty(
                #[trigger] r[j],
            ) by {
                if j < inner.len() {
                    assert(r[i] == inner[i] && r[j] == inner[j]);
                    assert(empties_last(cat, key, inner));
                }
            }
        } else {
            // both non-empty: nothing in the old prefix was empty either
            assert forall|i: int| 0 <= i < s.len() implies !empty(#[trigger] s[i]) by {
                if empty(s[i]) && i < s.len() - 1 {
                    assert(empty(s[s.len() - 1]));
                }
            }
            assert forall|i: int| 0 <= i < inner.len() implies !empty(
                #[trigger] inner[i],
            ) by {
                if inner[i] != x {
                    assert(s.drop_last().contains(inner[i]));
                    let k = choose|k: int|
                        0 <= k < s.drop_last().len() && s.drop_last()[k] == inner[i];
                    assert(s[k] == inner[i]);
                }
            }
            assert forall|i: int, j: int|
                0 <= i < j < r.len() && empty(#[trigger] r[i]) implies empty(
                #[trigger] r[j],
            ) by {
                if i < inner.len() {
                    assert(r[i] == inner[i]);
                }
            }
        }
    }
}

/// One insertion leaves the subsequence of empty-valued ids unchanged,
/// except that an inserted empty id joins its end.
proof fn lemma_insert_empty_filter(
    cat: OMap<Track>,
    key: Seq<char>,
    s: Seq<String>,
    x: String,
)
    requires
        spec_track_field_type(key) == Some(TrackField::String),
        all_in_catalog(cat, s),
        cat.spec_get(x@) is Some,
    ensures
        spec_insert_sorted(track_le_fn(cat, key), s, x).filter(text_empty_fn(cat, key))
            == if text_empty_fn(cat, key)(x) {
            s.filter(text_empty_fn(cat, key)).push(x)
        } else {
            s.filter(text_empty_fn(cat, key))
        },
    decreases s.len(),
{
    reveal_with_fuel(Seq::filter, 4);
    let le = track_le_fn(cat, key);
    let r = spec_insert_sorted(le, s, x);
    let empty = text_empty_fn(cat, key);
    if s.len() == 0 {
        assert(r =~= seq![x]);
        assert(r.drop_last() =~= Seq::<String>::empty());
        assert(r.filter(empty) == if empty(x) {
            Seq::<String>::empty().push(x)
        } else {
            Seq::<String>::empty()
        });
        assert(s.filter(empty) == Seq::<String>::empty());
        assert(Seq::<String>::empty().push(x) =~= s.filter(empty).push(x));
    } else if le(s.last(), x) {
        assert(r == s.push(x));
        assert(r.drop_last() =~= s);
        assert(r.last() == x);
        assert(r.filter(empty) == if empty(x) {
            r.drop_last().filter(empty).push(x)
        } else {
            r.drop_last().filter(empty)
        });
    } else {
        assert(!empty(x)) by {
            if empty(x) {
                assert(le(s.last(), x));
            }
        }
        lemma_insert_empty_filter(cat, key, s.drop_last(), x);
        let inner = spec_insert_sorted(le, s.drop_last(), x);
        assert(r == inner.push(s.last()));
        assert(r.drop_last() =~= inner);
        assert(r.last() == s.last());
        assert(r.filter(empty) == if empty(s.last()) {
            inner.filter(empty).push(s.last())
        } else {
            inner.filter(empty)
        });
        assert(inner.filter(empty) == s.drop_last().filter(empty));
        assert(s.drop_last() == s.drop_last().push(s.last()).drop_last());
        assert(s.drop_last().push(s.last()) =~= s);
        assert(s.filter(empty) == if empty(s.last()) {
            s.drop_last().filter(empty).push(s.last())
        } else {
            s.drop_last().filter(empty)
        });
    }
}

/// The text sort places every empty-valued id after every non-empty one,
/// and keeps the empty-valued ids in their original relative order.
pub proof fn lemma_text_sort_empties(cat: OMap<Track>, key: Seq<char>, s: Seq<String>)
    requires
        spec_track_field_type(key) == Some(TrackField::String),
        all_in_catalog(cat, s),
    ensures
        empties_last(cat, key, spec_sort_by(track_le_fn(cat, key), s)),
        spec_sort_by(track_le_fn(cat, key), s).filter(text_empty_fn(cat, key)) == s.filter(
            text_empty_fn(cat, key),
        ),
    decreases s.len(),
{
    reveal_with_fuel(Seq::filter, 4);
    let le = track_le_fn(cat, key);
    if s.len() == 0 {
        assert(empties_last(cat, key, spec_sort_by(le, s)));
    } else {
        assert(all_in_catalog(cat, s.drop_last())) by {
            assert(forall|j: int|
                0 <= j < s.drop_last().len() ==> #[trigger] s.drop_last()[j] == s[j]);
        }
        lemma_text_sort_empties(cat, key, s.drop_last());
        let sorted_prefix = spec_sort_by(le, s.drop_last());
        assert(all_in_catalog(cat, sorted_prefix)) by {
            lemma_sort_membership(le, s.drop_last());
            assert forall|j: int|
                0 <= j < sorted_prefix.len() implies cat.spec_get(
                (#[trigger] sorted_prefix[j])@,
            ) is Some by {
                assert(s.drop_last().contains(sorted_prefix[j]));
                let k = choose|k: int|
                    0 <= k < s.drop_last().len() && s.drop_last()[k] == sorted_prefix[j];
                assert(s[k] == sorted_prefix[j]);
            }
        }
        assert(cat.spec_get(s.last()@) is Some);
        lemma_insert_keeps_empties_last(cat, key, sorted_prefix, s.last());
        lemma_insert_empty_filter(cat, key, sorted_prefix, s.last());
        assert(s.drop_last().push(s.last()) =~= s);
    }
}

/// One insertion step adds exactly the inserted id to the content.
proof fn lemma_insert_multiset(le: spec_fn(String, String) -> bool, s: Seq<String>, x: String)
    ensures
        spec_insert_sorted(le, s, x).to_multiset() == s.to_multiset().insert(x),
    decreases s.len(),
{
    broadcast use vstd::seq_lib::group_to_multiset_ensures;

    let r = spec_insert_sorted(le, s, x);
    if s.len() == 0 {
        assert(seq![x] =~= Seq::<String>::empty().push(x));
        assert(seq![x].to_multiset() =~= s.to_multiset().insert(x));
    } else if le(s.last(), x) {
        assert(s.push(x).to_multiset() =~= s.to_multiset().insert(x));
    } else {
        lemma_insert_multiset(le, s.drop_last(), x);
        let inner = spec_insert_sorted(le, s.drop_last(), x);
        assert(r == inner.push(s.last()));
        assert(r.to_multiset() =~= inner.to_multiset().insert(s.last()));
        assert(s.drop_last().push(s.last()) =~= s);
        assert(s.to_multiset() =~= s.drop_last().to_multiset().insert(s.last()));
        assert(r.to_multiset() =~= s.to_multiset().insert(x));
    }
}

/// Sorting permutes: the sorted sequence holds exactly the input's ids,
/// duplicates included.
pub proof fn lemma_sort_by_permutation(le: spec_fn(String, String) -> bool, s: Seq<String>)
    ensures
        spec_sort_by(le, s).to_multiset() == s.to_multiset(),
    decreases s.len(),
{
    broadcast use vstd::seq_lib::group_to_multiset_ensures;

    if s.len() > 0 {
        lemma_sort_by_permutation(le, s.drop_last());
        lemma_insert_multiset(le, spec_sort_by(le, s.drop_last()), s.last());
        assert(s.drop_last().push(s.last()) =~= s);
        assert(s.to_multiset() =~= s.drop_last().to_multiset().insert(s.last()));
        assert(spec_sort_by(le, s).to_multiset() =~= s.to_multiset());
    }
}

/// Every element of a sorted sequence came from the input.
proof fn lemma_sort_membership(le: spec_fn(String, String) -> bool, s: Seq<String>)
    ensures
        spec_sort_by(le, s).len() == s.len(),
        forall|c: String| spec_sort_by(le, s).contains(c) ==> s.contains(c),
    decreases s.len(),
{
    if s.len() > 0 {
        lemma_sort_membership(le, s.drop_last());
        lemma_insert_membership(le, spec_sort_by(le, s.drop_last()), s.last());
        let r = spec_sort_by(le, s);
        assert forall|c: String| r.contains(c) implies s.contains(c) by {
            let j = choose|j: int| 0 <= j < r.len() && r[j] == c;
            if r[j] == s.last() {
                assert(s.contains(s.last()));
            } else {
                assert(spec_sort_by(le, s.drop_last()).contains(c) || c == s.last());
                if spec_sort_by(le, s.drop_last()).contains(c) {
                    assert(s.drop_last().contains(c));
                    let k = choose|k: int|
                        0 <= k < s.drop_last().len() && s.drop_last()[k] == c;
                    assert(s[k] == c);
                }
            }
        }
    }
}

/// A membership fact about dropping the first occurrence of an id from a
/// duplicate-free child sequence: exactly that id disappears.
proof fn lemma_remove_first_id_view(cs: Seq<String>, id: Seq<char>)
    requires
        ids_view(cs).no_duplicates(),
        ids_view(cs).contains(id),
    ensures
        ids_view(crate::playlists::remove_first_id(cs, id)).no_duplicates(),
        forall|c: Seq<char>|
            ids_view(crate::playlists::remove_first_id(cs, id)).contains(c) <==> (ids_view(
                cs,
            ).contains(c) && c != id),
{
    ids_view(cs).index_of_first_ensures(id);
    let j = ids_view(cs).index_of_first(id).unwrap();
    let out = crate::playlists::remove_first_id(cs, id);
    assert(out == cs.remove(j));
    assert(ids_view(out) =~= ids_view(cs).remove(j));
    let vs = ids_view(cs);
    assert(forall|k: int|
        0 <= k < vs.remove(j).len() ==> vs.remove(j)[k] == (if k < j {
            vs[k]
        } else {
            vs[k + 1]
        }));
    assert(ids_view(out).no_duplicates());
    assert forall|c: Seq<char>|
        ids_view(out).contains(c) implies (vs.contains(c) && c != id) by {
        let k = choose|k: int| 0 <= k < vs.remove(j).len() && vs.remove(j)[k] == c;
        if k < j {
            assert(vs[k] == c);
            assert(c != id) by {
                if c == id {
                    assert(vs[k] == vs[j]);
                }
            }
        } else {
            assert(vs[k + 1] == c);
            assert(c != id) by {
                if c == id {
                    assert(vs[k + 1] == vs[j]);
                }
            }
        }
    }
    assert forall|c: Seq<char>|
        vs.contains(c) && c != id implies ids_view(out).contains(c) by {
        let k = choose|k: int| 0 <= k < vs.len() && vs[k] == c;
        if k < j {
            assert(vs.remove(j)[k] == c);
        } else {
            assert(k != j);
            assert(vs.remove(j)[k - 1] == c);
        }
    }
}

/// Creating a list under a folder or the root keeps the tree invariant:
/// the fresh node hangs once off its parent and has no children of its
/// own, so no orphan, double membership or cycle can appear.
pub proof fn lemma_new_list_preserves_wf(a: Library, b: Library, parent_id: Seq<char>, nid: Seq<char>)
    requires
        lists_wf(a),
        a.track_lists.contains_key(parent_id),
        !a.track_lists.contains_key(nid),
        ({
            let es = a.track_lists.entries@;
            let pi = a.track_lists.key_index(parent_id);
            let nb = b.track_lists.entries@[es.len() as int].1;
            &&& b.track_lists.entries@.len() == es.len() + 1
            &&& (forall|j: int|
                0 <= j < es.len() && j != pi ==> #[trigger] b.track_lists.entries@[j]
                    == es[j])
            &&& b.track_lists.entries@[pi].0 == es[pi].0
            &&& crate::tracklist::children_replaced(
                es[pi].1,
                b.track_lists.entries@[pi].1,
                es[pi].1.spec_children().push(b.track_lists.entries@[es.len() as int].0),
            )
            &&& b.track_lists.entries@[es.len() as int].0@ == nid
            &&& nb.spec_id() == nid
            &&& nb.child_ids().len() == 0
            &&& !(nb is Special)
        }),
    ensures
        lists_wf(b),
{
    let es = a.track_lists.entries@;
    let eb = b.track_lists.entries@;
    let pi = a.track_lists.key_index(parent_id);
    a.track_lists.lemma_key_index(parent_id);
    let nlen = es.len() as int;
    assert(b.track_lists.keys() =~= a.track_lists.keys().push(nid));
    assert(b.track_lists.wf()) by {
        assert(forall|j: int|
            0 <= j < a.track_lists.keys().len() ==> a.track_lists.keys()[j] != nid);
    }
    assert forall|x: Seq<char>|
        x != nid implies b.track_lists.contains_key(x) == a.track_lists.contains_key(x) by {
        if a.track_lists.contains_key(x) {
            let j = choose|j: int|
                0 <= j < a.track_lists.keys().len() && a.track_lists.keys()[j] == x;
            assert(b.track_lists.keys()[j] == x);
        }
        if b.track_lists.contains_key(x) {
            let j = choose|j: int|
                0 <= j < b.track_lists.keys().len() && b.track_lists.keys()[j] == x;
            assert(j < nlen);
            assert(a.track_lists.keys()[j] == x);
        }
    }
    assert(b.track_lists.contains_key(nid)) by {
        assert(b.track_lists.keys()[nlen] == nid);
    }
    // value lookups in b
    assert forall|j: int|
        0 <= j < eb.len() implies b.track_lists.spec_get(#[trigger] eb[j].0@) == Some(
        eb[j].1,
    ) by {
        b.track_lists.lemma_get_by_index(j);
    }
    assert(b.track_lists.spec_get(nid) == Some(eb[nlen].1));
    // children of the parent in b
    let pkids = eb[pi].1.child_ids();
    assert(pkids =~= es[pi].1.child_ids().push(nid)) by {
        assert(eb[pi].1.spec_children() == es[pi].1.spec_children().push(eb[nlen].0));
    }
    // the edges of b are those of a plus parent -> nid
    assert forall|x: Seq<char>, y: Seq<char>|
        edge(b, x, y) implies (edge(a, x, y) || (x == parent_id && y == nid)) by {
        if edge(b, x, y) {
            if x == nid {
                assert(b.track_lists.spec_get(nid) == Some(eb[nlen].1));
                assert(eb[nlen].1.child_ids().len() == 0);
                assert(false);
            } else {
                let xj = a.track_lists.key_index(x);
                assert(a.track_lists.contains_key(x)) by {
                    crate::omap::lemma_assoc_get_some_iff(eb, x);
                    assert(b.track_lists.contains_key(x));
                }
                a.track_lists.lemma_key_index(x);
                assert(b.track_lists.spec_get(x) == Some(eb[xj].1)) by {
                    assert(eb[xj].0@ == x);
                    b.track_lists.lemma_get_by_index(xj);
                }
                if xj == pi {
                    assert(pkids.contains(y));
                    let k = choose|k: int| 0 <= k < pkids.len() && pkids[k] == y;
                    if k < pkids.len() - 1 {
                        assert(es[pi].1.child_ids()[k] == y);
                        assert(edge(a, x, y));
                    } else {
                        assert(y == nid && x == parent_id);
                    }
                } else {
                    assert(eb[xj] == es[xj]);
                    assert(edge(a, x, y));
                }
            }
        }
    }
    assert forall|x: Seq<char>, y: Seq<char>|
        edge(a, x, y) implies edge(b, x, y) by {
        if edge(a, x, y) {
            crate::omap::lemma_assoc_get_index(es, x);
            let xj = choose|j: int|
                0 <= j < es.len() && (#[trigger] es[j]).0@ == x && Some(es[j].1)
                    == crate::omap::assoc_get(es, x);
            a.track_lists.lemma_get_by_index(xj);
            assert(xj == a.track_lists.key_index(x));
            b.track_lists.lemma_get_by_index(xj);
            if xj == pi {
                let k = choose|k: int|
                    0 <= k < es[pi].1.child_ids().len() && es[pi].1.child_ids()[k] == y;
                assert(pkids[k] == y);
            } else {
                assert(eb[xj] == es[xj]);
            }
        }
    }
    // no edge leaves the fresh node, so no new path can close a cycle
    assert forall|x: Seq<char>| !reaches(b, x, x) by {
        if reaches(b, x, x) {
            let p = choose|p: Seq<Seq<char>>|
                is_path(b, p) && p.first() == x && p.last() == x;
            if exists|i: int| 0 <= i < p.len() && p[i] == nid {
                let i = choose|i: int| 0 <= i < p.len() && p[i] == nid;
                if i < p.len() - 1 {
                    assert(edge(b, p[i], p[i + 1]));
                    assert(eb[nlen].1.child_ids().len() == 0);
                    assert(false);
                } else {
                    assert(p[0] == nid);
                    assert(edge(b, p[0], p[0int + 1]));
                    assert(eb[nlen].1.child_ids().len() == 0);
                    assert(false);
                }
            } else {
                assert forall|i: int|
                    0 <= i < p.len() - 1 implies edge(a, p[i], #[trigger] p[i + 1]) by {
                    assert(edge(b, p[i], p[i + 1]));
                    assert(p[i + 1] != nid);
                }
                assert(is_path(a, p));
                assert(reaches(a, x, x));
            }
        }
    }
    // remaining structural conjuncts
    assert(forall|i: int| 0 <= i < eb.len() ==> (#[trigger] eb[i].1).spec_id() == eb[i].0@);
    assert forall|i: int|
        0 <= i < eb.len() && ((#[trigger] eb[i].1) matches TrackList::Special(_)) implies
        eb[i].0@ == "root"@ by {
        if i < nlen {
            assert(es[i].1 is Special);
        }
    }
    assert(b.track_lists.spec_get("root"@) matches Some(TrackList::Special(_))) by {
        let ri = a.track_lists.key_index("root"@);
        a.track_lists.lemma_key_index("root"@);
        b.track_lists.lemma_get_by_index(ri);
        assert(es[ri].1 is Special);
        assert(eb[ri].1 is Special);
    }
    assert forall|i: int, j: int|
        0 <= i < eb.len() && 0 <= j < (#[trigger] eb[i].1).child_ids().len() implies
        b.track_lists.contains_key(#[trigger] eb[i].1.child_ids()[j]) && eb[i].1.child_ids()[j]
        != "root"@ by {
        if i < nlen {
            if i == pi && j == pkids.len() - 1 {
                assert(eb[i].1.child_ids()[j] == nid);
                assert(nid != "root"@);
            } else {
                let c = eb[i].1.child_ids()[j];
                assert(c == es[i].1.child_ids()[j]);
                assert(a.track_lists.contains_key(c));
                assert(c != nid);
            }
        }
    }
    assert forall|i: int|
        0 <= i < eb.len() implies (#[trigger] eb[i].1).child_ids().no_duplicates() by {
        if i == pi {
            assert(es[pi].1.child_ids().no_duplicates());
            assert forall|k: int|
                0 <= k < es[pi].1.child_ids().len() implies es[pi].1.child_ids()[k]
                != nid by {
                assert(a.track_lists.contains_key(es[pi].1.child_ids()[k]));
            }
            assert(pkids.no_duplicates());
        } else if i < nlen {
            assert(eb[i].1 == es[i].1);
        }
    }
    assert forall|i1: int, j1: int, i2: int, j2: int|
        0 <= i1 < eb.len() && 0 <= j1 < eb[i1].1.child_ids().len() && 0 <= i2 < eb.len() && 0
            <= j2 < eb[i2].1.child_ids().len() && i1 != i2 implies
        #[trigger] eb[i1].1.child_ids()[j1] != #[trigger] eb[i2].1.child_ids()[j2] by {
        if i1 < nlen && i2 < nlen {
            let c1 = eb[i1].1.child_ids()[j1];
            let c2 = eb[i2].1.child_ids()[j2];
            let new1 = i1 == pi && j1 == pkids.len() - 1;
            let new2 = i2 == pi && j2 == pkids.len() - 1;
            if new1 {
                assert(c1 == nid);
                assert(c2 == es[i2].1.child_ids()[j2]);
                assert(a.track_lists.contains_key(c2));
            } else if new2 {
                assert(c2 == nid);
                assert(c1 == es[i1].1.child_ids()[j1]);
                assert(a.track_lists.contains_key(c1));
            } else {
                assert(c1 == es[i1].1.child_ids()[j1]);
                assert(c2 == es[i2].1.child_ids()[j2]);
            }
        }
    }
    assert forall|i: int|
        0 <= i < eb.len() && (#[trigger] eb[i].0)@ != "root"@ implies exists|qi: int, j: int|
        0 <= qi < eb.len() && 0 <= j < eb[qi].1.child_ids().len()
            && #[trigger] eb[qi].1.child_ids()[j] == eb[i].0@ by {
        if i < nlen {
            let (qi, j): (int, int) = choose|qi: int, j: int|
                0 <= qi < es.len() && 0 <= j < es[qi].1.child_ids().len()
                    && #[trigger] es[qi].1.child_ids()[j] == es[i].0@;
            assert(eb[qi].1.child_ids()[j] == eb[i].0@);
        } else {
            assert(eb[pi].1.child_ids()[pkids.len() - 1] == nid);
        }
    }
}

/// If every edge of `b` is an edge of `a` or the single new edge
/// `to -> id`, and `id` cannot reach `to` in `a`, then no path of `b`
/// leads from `id` to `to`.
proof fn lemma_no_path_to_dest(
    a: Library,
    b: Library,
    id: Seq<char>,
    to: Seq<char>,
    p: Seq<Seq<char>>,
)
    requires
        forall|x: Seq<char>, y: Seq<char>|
            edge(b, x, y) ==> edge(a, x, y) || (x == to && y == id),
        !reaches(a, id, to),
        to != id,
    ensures
        !(is_path(b, p) && p.first() == id && p.last() == to),
    decreases p.len(),
{
    if is_path(b, p) && p.first() == id && p.last() == to {
        if forall|i: int|
            0 <= i < p.len() - 1 ==> !(p[i] == to && #[trigger] p[i + 1] == id) {
            assert forall|i: int|
                0 <= i < p.len() - 1 implies edge(a, p[i], #[trigger] p[i + 1]) by {
                assert(edge(b, p[i], p[i + 1]));
            }
            assert(is_path(a, p));
            assert(reaches(a, id, to));
        } else {
            let i = choose|i: int|
                0 <= i < p.len() - 1 && p[i] == to && #[trigger] p[i + 1] == id;
            let q = p.subrange(i + 1, p.len() as int);
            assert(q.first() == id);
            assert(q.last() == to);
            if q.len() < 2 {
                assert(q.len() == 1);
                assert(q[0] == id && q[0] == to);
            } else {
                assert forall|k: int|
                    0 <= k < q.len() - 1 implies edge(b, q[k], #[trigger] q[k + 1]) by {
                    assert(q[k] == p[i + 1 + k] && q[k + 1] == p[i + 1 + k + 1]);
                    assert(edge(b, p[i + 1 + k], p[(i + 1 + k) + 1]));
                }
                assert(is_path(b, q));
                lemma_no_path_to_dest(a, b, id, to, q);
            }
        }
    }
}

/// Moving a list between user-editable containers keeps the tree
/// invariant, provided the destination is neither the moved list itself
/// nor one of its transitive children.
pub proof fn lemma_move_preserves_wf(
    a: Library,
    b: Library,
    id: Seq<char>,
    from: Seq<char>,
    to: Seq<char>,
    id_s: String,
)
    requires
        lists_wf(a),
        id_s@ == id,
        to != id,
        a.track_lists.spec_get(id) matches Some(l) && !(l is Special),
        a.track_lists.spec_get(to) matches Some(t) && !(t is Playlist),
        !reaches(a, id, to),
        a.track_lists.spec_get(from) matches Some(f) && !(f is Playlist) && ids_view(
            f.spec_children(),
        ).contains(id),
        b.track_lists.entries@.len() == a.track_lists.entries@.len(),
        forall|j: int|
            0 <= j < a.track_lists.entries@.len()
                ==> (#[trigger] b.track_lists.entries@[j]).0 == a.track_lists.entries@[j].0,
        ({
            let es = a.track_lists.entries@;
            let eb = b.track_lists.entries@;
            let fi = a.track_lists.key_index(from);
            let ti = a.track_lists.key_index(to);
            &&& (forall|j: int|
                0 <= j < es.len() && j != fi && j != ti ==> #[trigger] eb[j] == es[j])
            &&& (if fi == ti {
                crate::tracklist::children_replaced(
                    es[fi].1,
                    eb[fi].1,
                    crate::playlists::remove_first_id(es[fi].1.spec_children(), id).push(id_s),
                )
            } else {
                crate::tracklist::children_replaced(
                    es[fi].1,
                    eb[fi].1,
                    crate::playlists::remove_first_id(es[fi].1.spec_children(), id),
                ) && crate::tracklist::children_replaced(
                    es[ti].1,
                    eb[ti].1,
                    es[ti].1.spec_children().push(id_s),
                )
            })
        }),
    ensures
        lists_wf(b),
{
    let es = a.track_lists.entries@;
    let eb = b.track_lists.entries@;
    crate::omap::lemma_assoc_get_some_iff(es, from);
    crate::omap::lemma_assoc_get_some_iff(es, to);
    crate::omap::lemma_assoc_get_some_iff(es, id);
    let fi = a.track_lists.key_index(from);
    let ti = a.track_lists.key_index(to);
    let ii = a.track_lists.key_index(id);
    a.track_lists.lemma_key_index(from);
    a.track_lists.lemma_key_index(to);
    a.track_lists.lemma_key_index(id);
    assert(b.track_lists.keys() =~= a.track_lists.keys());
    assert(b.track_lists.wf());
    assert(forall|x: Seq<char>|
        b.track_lists.contains_key(x) == a.track_lists.contains_key(x));
    assert forall|j: int|
        0 <= j < eb.len() implies b.track_lists.spec_get(#[trigger] eb[j].0@) == Some(
        eb[j].1,
    ) by {
        b.track_lists.lemma_get_by_index(j);
    }
    // id is moved, never the root
    assert(id != "root"@) by {
        if id == "root"@ {
            assert(a.track_lists.spec_get("root"@) matches Some(TrackList::Special(_)));
        }
    }
    // the one index carrying id among a's child sequences is (fi, its slot)
    let fkids_a = es[fi].1.child_ids();
    assert(fkids_a == ids_view(es[fi].1.spec_children()));
    assert(fkids_a.contains(id));
    assert forall|i: int, j: int|
        0 <= i < es.len() && 0 <= j < es[i].1.child_ids().len()
            && #[trigger] es[i].1.child_ids()[j] == id implies i == fi by {
        if i != fi {
            let jf = choose|jf: int| 0 <= jf < fkids_a.len() && fkids_a[jf] == id;
            assert(es[fi].1.child_ids()[jf] != es[i].1.child_ids()[j]);
        }
    }
    // membership in the rewritten child sequences
    lemma_remove_first_id_view(es[fi].1.spec_children(), id);
    let fkids_b = eb[fi].1.child_ids();
    let tkids_b = eb[ti].1.child_ids();
    if fi == ti {
        assert(fkids_b =~= ids_view(
            crate::playlists::remove_first_id(es[fi].1.spec_children(), id),
        ).push(id));
        assert(forall|c: Seq<char>|
            fkids_b.contains(c) ==> (fkids_a.contains(c) || c == id)) by {
            assert forall|c: Seq<char>| fkids_b.contains(c) && c != id implies fkids_a.contains(
                c,
            ) by {
                let k = choose|k: int| 0 <= k < fkids_b.len() && fkids_b[k] == c;
                assert(k < fkids_b.len() - 1);
                assert(ids_view(
                    crate::playlists::remove_first_id(es[fi].1.spec_children(), id),
                ).contains(c));
            }
        }
        assert(fkids_b.contains(id)) by {
            assert(fkids_b.last() == id);
        }
        assert(fkids_b.no_duplicates()) by {
            assert(ids_view(
                crate::playlists::remove_first_id(es[fi].1.spec_children(), id),
            ).no_duplicates());
            assert(!ids_view(
                crate::playlists::remove_first_id(es[fi].1.spec_children(), id),
            ).contains(id));
        }
    } else {
        assert(fkids_b =~= ids_view(
            crate::playlists::remove_first_id(es[fi].1.spec_children(), id),
        ));
        assert(forall|c: Seq<char>|
            fkids_b.contains(c) <==> (fkids_a.contains(c) && c != id));
        assert(fkids_b.no_duplicates());
        assert(tkids_b =~= es[ti].1.child_ids().push(id));
        assert forall|c: Seq<char>|
            tkids_b.contains(c) implies (es[ti].1.child_ids().contains(c) || c == id) by {
            let k = choose|k: int| 0 <= k < tkids_b.len() && tkids_b[k] == c;
            if k < tkids_b.len() - 1 {
                assert(es[ti].1.child_ids()[k] == c);
            }
        }
        assert(tkids_b.contains(id)) by {
            assert(tkids_b.last() == id);
        }
        assert(tkids_b.no_duplicates()) by {
            assert(!es[ti].1.child_ids().contains(id)) by {
                if es[ti].1.child_ids().contains(id) {
                    let k = choose|k: int|
                        0 <= k < es[ti].1.child_ids().len() && es[ti].1.child_ids()[k] == id;
                }
            }
        }
    }
    // every edge of b is an edge of a or the new attachment
    assert forall|x: Seq<char>, y: Seq<char>|
        edge(b, x, y) implies (edge(a, x, y) || (x == to && y == id)) by {
        if edge(b, x, y) {
            crate::omap::lemma_assoc_get_some_iff(eb, x);
            let xj = a.track_lists.key_index(x);
            a.track_lists.lemma_key_index(x);
            assert(b.track_lists.spec_get(x) == Some(eb[xj].1)) by {
                b.track_lists.lemma_get_by_index(xj);
            }
            assert(a.track_lists.spec_get(x) == Some(es[xj].1));
            if xj == fi && fi != ti {
                assert(fkids_b.contains(y));
                assert(fkids_a.contains(y));
                assert(edge(a, x, y));
            } else if xj == ti && fi != ti {
                assert(tkids_b.contains(y));
                if y != id {
                    assert(es[ti].1.child_ids().contains(y));
                    assert(edge(a, x, y));
                } else {
                    assert(x == to);
                }
            } else if xj == fi && fi == ti {
                assert(fkids_b.contains(y));
                if y != id {
                    assert(fkids_a.contains(y));
                    assert(edge(a, x, y));
                } else {
                    assert(x == to);
                }
            } else {
                assert(eb[xj] == es[xj]);
                assert(edge(a, x, y));
            }
        }
    }
    // no cycle survives the surgery
    assert forall|x: Seq<char>| !reaches(b, x, x) by {
        if reaches(b, x, x) {
            let p = choose|p: Seq<Seq<char>>|
                is_path(b, p) && p.first() == x && p.last() == x;
            if forall|i: int|
                0 <= i < p.len() - 1 ==> !(p[i] == to && #[trigger] p[i + 1] == id) {
                assert forall|i: int|
                    0 <= i < p.len() - 1 implies edge(a, p[i], #[trigger] p[i + 1]) by {
                    assert(edge(b, p[i], p[i + 1]));
                }
                assert(is_path(a, p));
                assert(reaches(a, x, x));
            } else {
                let i = choose|i: int|
                    0 <= i < p.len() - 1 && p[i] == to && #[trigger] p[i + 1] == id;
                if p.len() == 2 {
                    assert(p[0] == p[1]);
                    assert(to == id);
                } else {
                    let r = p.subrange(i + 1, p.len() as int) + p.subrange(1, i + 1);
                    assert(r.len() == p.len() - 1);
                    assert(r.first() == p[i + 1]);
                    assert(r.last() == (if i >= 1 {
                        p.subrange(1, i + 1)[i - 1]
                    } else {
                        p.subrange(i + 1, p.len() as int).last()
                    }));
                    assert(r.last() == to) by {
                        if i >= 1 {
                            assert(p.subrange(1, i + 1)[i - 1] == p[i]);
                        } else {
                            assert(r.last() == p.last());
                            assert(p.last() == p.first());
                            assert(p.first() == p[0]);
                            assert(p[0] == to);
                        }
                    }
                    let part1 = p.subrange(i + 1, p.len() as int);
                    assert forall|k: int|
                        0 <= k < r.len() - 1 implies edge(b, r[k], #[trigger] r[k + 1]) by {
                        if k + 1 < part1.len() {
                            assert(r[k] == p[i + 1 + k] && r[k + 1] == p[i + 1 + k + 1]);
                            assert(edge(b, p[i + 1 + k], p[(i + 1 + k) + 1]));
                        } else if k + 1 == part1.len() {
                            assert(r[k] == p[p.len() - 1]);
                            assert(r[k + 1] == p.subrange(1, i + 1)[0]);
                            assert(r[k + 1] == p[1]);
                            assert(p[p.len() - 1] == p[0]);
                            assert(edge(b, p[0], p[0int + 1]));
                        } else {
                            let m = k - part1.len();
                            assert(r[k] == p.subrange(1, i + 1)[m]);
                            assert(r[k + 1] == p.subrange(1, i + 1)[m + 1]);
                            assert(r[k] == p[1 + m] && r[k + 1] == p[1 + m + 1]);
                            assert(edge(b, p[1 + m], p[(1 + m) + 1]));
                        }
                    }
                    assert(r.len() >= 2);
                    assert(is_path(b, r));
                    lemma_no_path_to_dest(a, b, id, to, r);
                }
            }
        }
    }
    // structural conjuncts
    assert(forall|i: int| 0 <= i < eb.len() ==> (#[trigger] eb[i].1).spec_id() == eb[i].0@);
    assert forall|i: int|
        0 <= i < eb.len() && ((#[trigger] eb[i].1) matches TrackList::Special(_)) implies
        eb[i].0@ == "root"@ by {
        assert(es[i].1 is Special);
    }
    assert(b.track_lists.spec_get("root"@) matches Some(TrackList::Special(_))) by {
        let ri = a.track_lists.key_index("root"@);
        a.track_lists.lemma_key_index("root"@);
        b.track_lists.lemma_get_by_index(ri);
        assert(es[ri].1 is Special);
        assert(eb[ri].1 is Special);
    }
    assert forall|i: int, j: int|
        0 <= i < eb.len() && 0 <= j < (#[trigger] eb[i].1).child_ids().len() implies
        b.track_lists.contains_key(#[trigger] eb[i].1.child_ids()[j]) && eb[i].1.child_ids()[j]
        != "root"@ by {
        let c = eb[i].1.child_ids()[j];
        assert(eb[i].1.child_ids().contains(c));
        if i == fi || i == ti {
            if c == id {
                assert(a.track_lists.contains_key(id));
                assert(c != "root"@);
            } else {
                assert(es[i].1.child_ids().contains(c)) by {
                    if i == fi && fi != ti {
                        assert(fkids_a.contains(c));
                    } else if i == fi && fi == ti {
                        assert(fkids_a.contains(c));
                    } else {
                        assert(es[ti].1.child_ids().contains(c));
                    }
                }
                let k = choose|k: int|
                    0 <= k < es[i].1.child_ids().len() && es[i].1.child_ids()[k] == c;
                assert(a.track_lists.contains_key(c));
            }
        } else {
            assert(eb[i] == es[i]);
            assert(a.track_lists.contains_key(c));
        }
    }
    assert forall|i: int|
        0 <= i < eb.len() implies (#[trigger] eb[i].1).child_ids().no_duplicates() by {
        if i != fi && i != ti {
            assert(eb[i] == es[i]);
        }
    }
    assert forall|i1: int, j1: int, i2: int, j2: int|
        0 <= i1 < eb.len() && 0 <= j1 < eb[i1].1.child_ids().len() && 0 <= i2 < eb.len() && 0
            <= j2 < eb[i2].1.child_ids().len() && i1 != i2 implies
        #[trigger] eb[i1].1.child_ids()[j1] != #[trigger] eb[i2].1.child_ids()[j2] by {
        let c1 = eb[i1].1.child_ids()[j1];
        let c2 = eb[i2].1.child_ids()[j2];
        if c1 == c2 {
            let c = c1;
            assert(eb[i1].1.child_ids().contains(c));
            assert(eb[i2].1.child_ids().contains(c));
            // locate c in a's child sequences for each side
            if c == id {
                // id sits only under to in b
                assert(i1 == ti || (fkids_b.contains(id) && i1 == fi)) by {
                    if i1 != fi && i1 != ti {
                        assert(es[i1].1.child_ids().contains(id));
                        let k = choose|k: int|
                            0 <= k < es[i1].1.child_ids().len() && es[i1].1.child_ids()[k]
                                == id;
                        assert(i1 == fi);
                    }
                }
                assert(i2 == ti || (fkids_b.contains(id) && i2 == fi)) by {
                    if i2 != fi && i2 != ti {
                        assert(es[i2].1.child_ids().contains(id));
                        let k = choose|k: int|
                            0 <= k < es[i2].1.child_ids().len() && es[i2].1.child_ids()[k]
                                == id;
                        assert(i2 == fi);
                    }
                }
                if fi != ti {
                    assert(!fkids_b.contains(id));
                    assert(i1 == ti && i2 == ti);
                } else {
                    assert(i1 == fi && i2 == fi);
                }
            } else {
                // c is an ordinary child: still where it was in a
                assert(es[i1].1.child_ids().contains(c)) by {
                    if i1 == fi || i1 == ti {
                        if i1 == fi && fi != ti {
                            assert(fkids_a.contains(c));
                        } else if i1 == ti && fi != ti {
                            assert(es[ti].1.child_ids().contains(c));
                        } else {
                            assert(fkids_a.contains(c));
                        }
                    } else {
                        assert(eb[i1] == es[i1]);
                    }
                }
                assert(es[i2].1.child_ids().contains(c)) by {
                    if i2 == fi || i2 == ti {
                        if i2 == fi && fi != ti {
                            assert(fkids_a.contains(c));
                        } else if i2 == ti && fi != ti {
                            assert(es[ti].1.child_ids().contains(c));
                        } else {
                            assert(fkids_a.contains(c));
                        }
                    } else {
                        assert(eb[i2] == es[i2]);
                    }
                }
                let k1 = choose|k: int|
                    0 <= k < es[i1].1.child_ids().len() && es[i1].1.child_ids()[k] == c;
                let k2 = choose|k: int|
                    0 <= k < es[i2].1.child_ids().len() && es[i2].1.child_ids()[k] == c;
                assert(es[i1].1.child_ids()[k1] != es[i2].1.child_ids()[k2]);
            }
        }
    }
    assert forall|i: int|
        0 <= i < eb.len() && (#[trigger] eb[i].0)@ != "root"@ implies exists|qi: int, j: int|
        0 <= qi < eb.len() && 0 <= j < eb[qi].1.child_ids().len()
            && #[trigger] eb[qi].1.child_ids()[j] == eb[i].0@ by {
        let x = eb[i].0@;
        assert(es[i].0@ == x);
        let (qi, j): (int, int) = choose|qi: int, j: int|
            0 <= qi < es.len() && 0 <= j < es[qi].1.child_ids().len()
                && #[trigger] es[qi].1.child_ids()[j] == es[i].0@;
        let c = es[qi].1.child_ids()[j];
        if c == id {
            assert(qi == fi);
            assert(tkids_b.contains(id));
            let k = choose|k: int| 0 <= k < tkids_b.len() && tkids_b[k] == id;
            assert(eb[ti].1.child_ids()[k] == x);
        } else {
            if qi == fi && fi != ti {
                assert(fkids_b.contains(c));
                let k = choose|k: int| 0 <= k < fkids_b.len() && fkids_b[k] == c;
                assert(eb[fi].1.child_ids()[k] == x);
            } else if qi == fi && fi == ti {
                assert(fkids_a.contains(c) && c != id);
                assert(fkids_b.contains(c)) by {
                    assert(ids_view(
                        crate::playlists::remove_first_id(es[fi].1.spec_children(), id),
                    ).contains(c));
                    let k0 = choose|k0: int|
                        0 <= k0 < ids_view(
                            crate::playlists::remove_first_id(es[fi].1.spec_children(), id),
                        ).len() && ids_view(
                            crate::playlists::remove_first_id(es[fi].1.spec_children(), id),
                        )[k0] == c;
                    assert(fkids_b[k0] == c);
                }
                let k = choose|k: int| 0 <= k < fkids_b.len() && fkids_b[k] == c;
                assert(eb[fi].1.child_ids()[k] == x);
            } else if qi == ti {
                assert(tkids_b[j] == c) by {
                    assert(tkids_b =~= es[ti].1.child_ids().push(id));
                }
                assert(eb[ti].1.child_ids()[j] == x);
            } else {
                assert(eb[qi].1.child_ids()[j] == x);
            }
        }
    }
}

} // verus!
