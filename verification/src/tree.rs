//! The tracklist hierarchy as a graph: parent-child edges, paths,
//! reachability, the tree well-formedness invariant, and the transitive
//! children walk used for cycle prevention and folder flattening.

use vstd::prelude::*;

use crate::error::LibError;
use crate::library::Library;
use crate::strutil::{ids_view, vec_contains_str};
use crate::tracklist::TrackList;

verus! {

/// `b` is listed among the children of the node stored under `a`.
pub open spec fn edge(lib: Library, a: Seq<char>, b: Seq<char>) -> bool {
    match lib.track_lists.spec_get(a) {
        Some(l) => l.child_ids().contains(b),
        None => false,
    }
}

/// A descending chain of at least one parent-child step.
pub open spec fn is_path(lib: Library, p: Seq<Seq<char>>) -> bool {
    &&& p.len() >= 2
    &&& forall|i: int| 0 <= i < p.len() - 1 ==> edge(lib, p[i], #[trigger] p[i + 1])
}

/// `b` is a transitive child of `a`.
pub open spec fn reaches(lib: Library, a: Seq<char>, b: Seq<char>) -> bool {
    exists|p: Seq<Seq<char>>| is_path(lib, p) && p.first() == a && p.last() == b
}

pub proof fn lemma_edge_reaches(lib: Library, a: Seq<char>, b: Seq<char>)
    requires
        edge(lib, a, b),
    ensures
        reaches(lib, a, b),
{
    let p = seq![a, b];
    assert(is_path(lib, p));
    assert(p.first() == a && p.last() == b);
}

pub proof fn lemma_reaches_trans(lib: Library, a: Seq<char>, b: Seq<char>, c: Seq<char>)
    requires
        reaches(lib, a, b),
        reaches(lib, b, c),
    ensures
        reaches(lib, a, c),
{
    let p1 = choose|p: Seq<Seq<char>>| is_path(lib, p) && p.first() == a && p.last() == b;
    let p2 = choose|p: Seq<Seq<char>>| is_path(lib, p) && p.first() == b && p.last() == c;
    let p = p1 + p2.drop_first();
    assert(p.len() == p1.len() + p2.len() - 1);
    assert forall|i: int| 0 <= i < p.len() - 1 implies edge(lib, p[i], #[trigger] p[i + 1]) by {
        if i < p1.len() - 1 {
            assert(p[i] == p1[i] && p[i + 1] == p1[i + 1]);
            assert(edge(lib, p1[i], p1[i + 1]));
        } else if i == p1.len() - 1 {
            assert(p[i] == p1[p1.len() - 1] && p[i + 1] == p2.drop_first()[0]);
            assert(p2.drop_first()[0] == p2[1]);
            assert(edge(lib, p2[0], p2[0int + 1]));
        } else {
            assert(p[i] == p2.drop_first()[i - p1.len()]);
            assert(p[i + 1] == p2.drop_first()[i + 1 - p1.len()]);
            let k = i - p1.len();
            assert(p2.drop_first()[k] == p2[k + 1]);
            assert(p2.drop_first()[k + 1] == p2[k + 2]);
            assert(edge(lib, p2[k + 1], p2[k + 1 + 1]));
        }
    }
    assert(p.first() == a && p.last() == c);
    assert(is_path(lib, p));
}

pub proof fn lemma_reaches_extend(lib: Library, a: Seq<char>, b: Seq<char>, c: Seq<char>)
    requires
        reaches(lib, a, b),
        edge(lib, b, c),
    ensures
        reaches(lib, a, c),
{
    lemma_edge_reaches(lib, b, c);
    lemma_reaches_trans(lib, a, b, c);
}

/// The structural invariant of the tracklist tree.
///
/// One special node exists and sits at the key `"root"`; every stored node
/// records its own key as its id; every child reference resolves, never to
/// the root; no id is listed as a child twice, in one node or across two;
/// every non-root id is some node's child; and no node is its own
/// transitive child.
pub open spec fn lists_wf(lib: Library) -> bool {
    let es = lib.track_lists.entries@;
    &&& lib.track_lists.wf()
    &&& lib.track_lists.contains_key("root"@)
    &&& lib.track_lists.spec_get("root"@) matches Some(TrackList::Special(_))
    &&& forall|i: int| 0 <= i < es.len() ==> (#[trigger] es[i].1).spec_id() == es[i].0@
    &&& forall|i: int|
        0 <= i < es.len() && ((#[trigger] es[i].1) matches TrackList::Special(_))
            ==> es[i].0@ == "root"@
    &&& forall|i: int, j: int|
        0 <= i < es.len() && 0 <= j < (#[trigger] es[i].1).child_ids().len() ==> {
            &&& lib.track_lists.contains_key(#[trigger] es[i].1.child_ids()[j])
            &&& es[i].1.child_ids()[j] != "root"@
        }
    &&& forall|i: int| 0 <= i < es.len() ==> (#[trigger] es[i].1).child_ids().no_duplicates()
    &&& forall|i1: int, j1: int, i2: int, j2: int|
        0 <= i1 < es.len() && 0 <= j1 < es[i1].1.child_ids().len() && 0 <= i2 < es.len() && 0
            <= j2 < es[i2].1.child_ids().len() && i1 != i2
            ==> #[trigger] es[i1].1.child_ids()[j1] != #[trigger] es[i2].1.child_ids()[j2]
    &&& forall|i: int|
        0 <= i < es.len() && (#[trigger] es[i].0)@ != "root"@
            ==> exists|pi: int, j: int|
            0 <= pi < es.len() && 0 <= j < es[pi].1.child_ids().len()
                && #[trigger] es[pi].1.child_ids()[j] == es[i].0@
    &&& forall|a: Seq<char>| !reaches(lib, a, a)
}

/// Every end of a path out of `start` lies in a set that contains the
/// start's children and is closed under child edges.
proof fn lemma_path_ends_in_closed(
    lib: Library,
    start: Seq<char>,
    closed: Seq<Seq<char>>,
    p: Seq<Seq<char>>,
)
    requires
        forall|c: Seq<char>| edge(lib, start, c) ==> closed.contains(c),
        forall|x: Seq<char>, c: Seq<char>|
            closed.contains(x) && edge(lib, x, c) ==> closed.contains(c),
        is_path(lib, p),
        p.first() == start,
    ensures
        closed.contains(p.last()),
    decreases p.len(),
{
    if p.len() == 2 {
        assert(edge(lib, p[0], p[0int + 1]));
    } else {
        let q = p.drop_last();
        assert(forall|i: int| 0 <= i < q.len() - 1 ==> edge(lib, q[i], #[trigger] q[i + 1]))
            by {
            assert(forall|i: int|
                0 <= i < q.len() - 1 ==> q[i] == p[i] && #[trigger] q[i + 1] == p[i + 1]);
        }
        assert(is_path(lib, q));
        lemma_path_ends_in_closed(lib, start, closed, q);
        assert(edge(lib, p[p.len() - 2], p[p.len() - 2 + 1]));
        assert(q.last() == p[p.len() - 2]);
    }
}

/// A sequence of distinct ids that all occur as keys cannot outnumber the
/// entries.
proof fn lemma_distinct_keys_bound(lib: Library, r: Seq<String>)
    requires
        ids_view(r).no_duplicates(),
        forall|x: Seq<char>| ids_view(r).contains(x) ==> lib.track_lists.contains_key(x),
    ensures
        r.len() <= lib.track_lists.entries@.len(),
{
    let vs = ids_view(r);
    let ks = lib.track_lists.keys();
    vs.unique_seq_to_set();
    assert(vs.to_set().subset_of(ks.to_set())) by {
        assert forall|x: Seq<char>| vs.to_set().contains(x) implies ks.to_set().contains(
            x,
        ) by {
            assert(vs.contains(x));
        }
    }
    ks.lemma_cardinality_of_set();
    vstd::set_lib::lemma_len_subset(vs.to_set(), ks.to_set());
}

/// The order the stacked walk lists ids in: the top of `stack` is taken
/// next; an id already in `acc` is passed over; otherwise it is appended
/// and its children are stacked rightmost-first, so the leftmost child is
/// visited next. The cutoff branch is unreachable while `acc` holds
/// pairwise-distinct keys of the tree; it only bounds the recursion.
pub open spec fn walk_order(lib: Library, stack: Seq<String>, acc: Seq<String>) -> Seq<String>
    decreases lib.track_lists.entries@.len() - acc.len(), stack.len(),
{
    if stack.len() == 0 {
        acc
    } else {
        let id = stack.last();
        let rest = stack.drop_last();
        if ids_view(acc).contains(id@) {
            walk_order(lib, rest, acc)
        } else if acc.len() >= lib.track_lists.entries@.len() {
            acc
        } else {
            match lib.track_lists.spec_get(id@) {
                Some(l) => walk_order(lib, rest + l.spec_children().reverse(), acc.push(id)),
                None => acc,
            }
        }
    }
}

/// The depth-first pre-order enumeration of the transitive children of
/// `start`: each child subtree in full before the next sibling.
pub open spec fn dfs_preorder(lib: Library, start: Seq<char>) -> Seq<String> {
    match lib.track_lists.spec_get(start) {
        Some(l) => walk_order(lib, l.spec_children().reverse(), Seq::empty()),
        None => Seq::empty(),
    }
}

/// All transitive children of the node `playlist_id`, each listed once,
/// in depth-first pre-order.
///
/// On success the returned ids are exactly the ids reachable from
/// `playlist_id` through child sequences, enumerated depth-first. The
/// walk fails only when the start id, or some id reachable from it, is
/// not in the tree.
pub fn get_all_tracklist_children(lib: &Library, playlist_id: &String) -> (r: Result<
    Vec<String>,
    LibError,
>)
    ensures
        match r {
            Ok(v) => {
                &&& forall|x: Seq<char>|
                    ids_view(v@).contains(x) <==> reaches(*lib, playlist_id@, x)
                &&& ids_view(v@).no_duplicates()
                &&& forall|x: Seq<char>|
                    ids_view(v@).contains(x) ==> lib.track_lists.contains_key(x)
                &&& v@ == dfs_preorder(*lib, playlist_id@)
            },
            Err(e) => {
                &&& e == LibError::TracklistNotFound
                &&& (!lib.track_lists.contains_key(playlist_id@) || exists|x: Seq<char>|
                    reaches(*lib, playlist_id@, x) && !lib.track_lists.contains_key(x))
            },
        },
{
    let start = match lib.get_tracklist(playlist_id) {
        Ok(t) => t,
        Err(e) => {
            return Err(e);
        },
    };
    let direct: &Vec<String> = match start {
        TrackList::Folder(f) => &f.children,
        TrackList::Special(s) => &s.children,
        TrackList::Playlist(_) => {
            proof {
                assert forall|x: Seq<char>| !reaches(*lib, playlist_id@, x) by {
                    if reaches(*lib, playlist_id@, x) {
                        let p = choose|p: Seq<Seq<char>>|
                            is_path(*lib, p) && p.first() == playlist_id@ && p.last() == x;
                        assert(edge(*lib, p[0], p[0int + 1]));
                    }
                }
                assert(dfs_preorder(*lib, playlist_id@) =~= Seq::<String>::empty());
            }
            return Ok(Vec::new());
        },
    };
    let mut stack: Vec<String> = Vec::new();
    let mut k: usize = direct.len();
    while k > 0
        invariant
            k <= direct@.len(),
            stack@.len() == direct@.len() - k,
            forall|j: int|
                0 <= j < stack@.len() ==> #[trigger] stack@[j] == direct@[direct@.len() - 1
                    - j],
        decreases k,
    {
        k = k - 1;
        stack.push(direct[k].clone());
    }
    let ghost full_walk = walk_order(*lib, stack@, Seq::empty());
    proof {
        assert(lib.track_lists.spec_get(playlist_id@) == Some(*start));
        assert(stack@ =~= start.spec_children().reverse());
        assert(full_walk == dfs_preorder(*lib, playlist_id@));
        assert forall|c: Seq<char>| edge(*lib, playlist_id@, c) implies ids_view(
            stack@,
        ).contains(c) by {
            let j = choose|j: int|
                0 <= j < start.child_ids().len() && start.child_ids()[j] == c;
            assert(direct@[j]@ == c);
            assert(ids_view(stack@)[direct@.len() - 1 - j] == c);
        }
        assert forall|x: Seq<char>| ids_view(stack@).contains(x) implies reaches(
            *lib,
            playlist_id@,
            x,
        ) by {
            let j = choose|j: int| 0 <= j < ids_view(stack@).len() && ids_view(stack@)[j] == x;
            assert(stack@[j]@ == x);
            assert(direct@[direct@.len() - 1 - j]@ == x);
            assert(start.child_ids()[direct@.len() - 1 - j] == x);
            assert(edge(*lib, playlist_id@, x));
            lemma_edge_reaches(*lib, playlist_id@, x);
        }
    }
    let mut result: Vec<String> = Vec::new();
    loop
        invariant
            forall|x: Seq<char>|
                ids_view(stack@).contains(x) ==> reaches(*lib, playlist_id@, x),
            forall|x: Seq<char>|
                ids_view(result@).contains(x) ==> reaches(*lib, playlist_id@, x),
            ids_view(result@).no_duplicates(),
            forall|x: Seq<char>|
                ids_view(result@).contains(x) ==> lib.track_lists.contains_key(x),
            forall|x: Seq<char>, c: Seq<char>|
                ids_view(result@).contains(x) && edge(*lib, x, c) ==> (ids_view(
                    result@,
                ).contains(c) || ids_view(stack@).contains(c)),
            forall|c: Seq<char>|
                edge(*lib, playlist_id@, c) ==> (ids_view(result@).contains(c) || ids_view(
                    stack@,
                ).contains(c)),
            walk_order(*lib, stack@, result@) == full_walk,
        ensures
            stack@.len() == 0,
            walk_order(*lib, stack@, result@) == full_walk,
        decreases lib.track_lists.entries@.len() - result@.len(), stack@.len(),
    {
        let ghost entry_stack = stack@;
        let ghost entry_result = result@;
        let id = match stack.pop() {
            Some(id) => id,
            None => {
                break;
            },
        };
        proof {
            assert(stack@ == entry_stack.drop_last());
            assert(ids_view(entry_stack).contains(id@)) by {
                assert(ids_view(entry_stack).last() == id@);
            }
            assert forall|x: Seq<char>| ids_view(stack@).contains(x) implies ids_view(
                entry_stack,
            ).contains(x) by {
                let j = choose|j: int| 0 <= j < stack@.len() && stack@[j]@ == x;
                assert(ids_view(entry_stack)[j] == x);
            }
            assert forall|c: Seq<char>|
                ids_view(entry_stack).contains(c) implies (ids_view(stack@).contains(c) || c
                == id@) by {
                let j = choose|j: int| 0 <= j < entry_stack.len() && entry_stack[j]@ == c;
                if j < entry_stack.len() - 1 {
                    assert(ids_view(stack@)[j] == c);
                }
            }
        }
        if vec_contains_str(&result, &id) {
            proof {
                assert(walk_order(*lib, entry_stack, entry_result) == walk_order(
                    *lib,
                    stack@,
                    result@,
                ));
            }
            continue;
        }
        let node = match lib.get_tracklist(&id) {
            Ok(t) => t,
            Err(_) => {
                proof {
                    assert(reaches(*lib, playlist_id@, id@));
                }
                return Err(LibError::TracklistNotFound);
            },
        };
        let ghost base_stack = stack@;
        match node {
            TrackList::Folder(f) => {
                let mut k2: usize = f.children.len();
                while k2 > 0
                    invariant
                        k2 <= f.children@.len(),
                        stack@.len() == base_stack.len() + f.children@.len() - k2,
                        forall|j: int|
                            0 <= j < base_stack.len() ==> stack@[j] == base_stack[j],
                        forall|j: int|
                            base_stack.len() <= j < stack@.len() ==> #[trigger] stack@[j]
                                == f.children@[base_stack.len() + f.children@.len() - 1 - j],
                    decreases k2,
                {
                    k2 = k2 - 1;
                    stack.push(f.children[k2].clone());
                }
            },
            TrackList::Special(s) => {
                let mut k2: usize = s.children.len();
                while k2 > 0
                    invariant
                        k2 <= s.children@.len(),
                        stack@.len() == base_stack.len() + s.children@.len() - k2,
                        forall|j: int|
                            0 <= j < base_stack.len() ==> stack@[j] == base_stack[j],
                        forall|j: int|
                            base_stack.len() <= j < stack@.len() ==> #[trigger] stack@[j]
                                == s.children@[base_stack.len() + s.children@.len() - 1 - j],
                    decreases k2,
                {
                    k2 = k2 - 1;
                    stack.push(s.children[k2].clone());
                }
            },
            TrackList::Playlist(_) => {},
        }
        let ghost node_ghost = *node;
        result.push(id);
        proof {
            lemma_walk_step(
                *lib,
                playlist_id@,
                base_stack,
                stack@,
                entry_result,
                result@,
                node_ghost,
            );
            lemma_distinct_keys_bound(*lib, result@);
            assert(entry_result.len() < lib.track_lists.entries@.len());
            assert(stack@ =~= entry_stack.drop_last() + node_ghost.spec_children().reverse());
            assert(result@ == entry_result.push(result@.last()));
            assert(entry_stack.last() == result@.last());
            assert(walk_order(*lib, entry_stack, entry_result) == walk_order(
                *lib,
                stack@,
                result@,
            ));
        }
    }
    proof {
        assert(result@ == full_walk) by {
            assert(walk_order(*lib, stack@, result@) == result@);
        }
        assert forall|x: Seq<char>| reaches(*lib, playlist_id@, x) implies ids_view(
            result@,
        ).contains(x) by {
            let p = choose|p: Seq<Seq<char>>|
                is_path(*lib, p) && p.first() == playlist_id@ && p.last() == x;
            assert(ids_view(stack@).len() == 0);
            lemma_path_ends_in_closed(*lib, playlist_id@, ids_view(result@), p);
        }
    }
    Ok(result)
}

/// One processed node keeps the walk's invariants: its children all went
/// onto the stack, and everything on the new stack is reachable.
proof fn lemma_walk_step(
    lib: Library,
    start: Seq<char>,
    base_stack: Seq<String>,
    new_stack: Seq<String>,
    old_result: Seq<String>,
    new_result: Seq<String>,
    node: TrackList,
)
    requires
        new_result.len() == old_result.len() + 1,
        new_result == old_result.push(new_result.last()),
        lib.track_lists.spec_get(new_result.last()@) == Some(node),
        !ids_view(old_result).contains(new_result.last()@),
        reaches(lib, start, new_result.last()@),
        new_stack.len() == base_stack.len() + node.child_ids().len(),
        forall|j: int| 0 <= j < base_stack.len() ==> new_stack[j] == base_stack[j],
        forall|j: int|
            base_stack.len() <= j < new_stack.len() ==> new_stack[j]@ == node.child_ids()[
                base_stack.len() + node.child_ids().len() - 1 - j],
        forall|x: Seq<char>| ids_view(base_stack).contains(x) ==> reaches(lib, start, x),
        forall|x: Seq<char>| ids_view(old_result).contains(x) ==> reaches(lib, start, x),
        ids_view(old_result).no_duplicates(),
        forall|x: Seq<char>|
            ids_view(old_result).contains(x) ==> lib.track_lists.contains_key(x),
        forall|x: Seq<char>, c: Seq<char>|
            ids_view(old_result).contains(x) && edge(lib, x, c) ==> (ids_view(
                old_result,
            ).contains(c) || ids_view(base_stack).contains(c) || c == new_result.last()@),
        forall|c: Seq<char>|
            edge(lib, start, c) ==> (ids_view(old_result).contains(c) || ids_view(
                base_stack,
            ).contains(c) || c == new_result.last()@),
    ensures
        forall|x: Seq<char>| ids_view(new_stack).contains(x) ==> reaches(lib, start, x),
        forall|x: Seq<char>| ids_view(new_result).contains(x) ==> reaches(lib, start, x),
        ids_view(new_result).no_duplicates(),
        forall|x: Seq<char>|
            ids_view(new_result).contains(x) ==> lib.track_lists.contains_key(x),
        forall|x: Seq<char>, c: Seq<char>|
            ids_view(new_result).contains(x) && edge(lib, x, c) ==> (ids_view(
                new_result,
            ).contains(c) || ids_view(new_stack).contains(c)),
        forall|c: Seq<char>|
            edge(lib, start, c) ==> (ids_view(new_result).contains(c) || ids_view(
                new_stack,
            ).contains(c)),
{
    let id = new_result.last()@;
    assert(ids_view(new_result) =~= ids_view(old_result).push(id));
    crate::omap::lemma_assoc_get_some_iff(lib.track_lists.entries@, id);
    assert(lib.track_lists.contains_key(id));
    assert forall|x: Seq<char>| ids_view(new_stack).contains(x) implies reaches(
        lib,
        start,
        x,
    ) by {
        let j = choose|j: int| 0 <= j < new_stack.len() && new_stack[j]@ == x;
        if j < base_stack.len() {
            assert(ids_view(base_stack)[j] == x);
        } else {
            assert(node.child_ids()[base_stack.len() + node.child_ids().len() - 1 - j] == x);
            assert(edge(lib, id, x));
            lemma_reaches_extend(lib, start, id, x);
        }
    }
    assert forall|x: Seq<char>| ids_view(base_stack).contains(x) implies ids_view(
        new_stack,
    ).contains(x) by {
        let j = choose|j: int| 0 <= j < base_stack.len() && base_stack[j]@ == x;
        assert(ids_view(new_stack)[j] == x);
    }
    assert forall|c: Seq<char>| edge(lib, id, c) implies ids_view(new_stack).contains(c) by {
        let j = choose|j: int| 0 <= j < node.child_ids().len() && node.child_ids()[j] == c;
        let sj = base_stack.len() + node.child_ids().len() - 1 - j;
        assert(new_stack[sj]@ == c);
        assert(ids_view(new_stack)[sj] == c);
    }
    assert(ids_view(new_result).contains(id)) by {
        assert(ids_view(new_result).last() == id);
    }
    assert forall|x: Seq<char>| ids_view(new_result).contains(x) implies (ids_view(
        old_result,
    ).contains(x) || x == id) by {
        let j = choose|j: int| 0 <= j < new_result.len() && new_result[j]@ == x;
        if j < old_result.len() {
            assert(ids_view(old_result)[j] == x);
        }
    }
    assert forall|x: Seq<char>| ids_view(old_result).contains(x) implies ids_view(
        new_result,
    ).contains(x) by {
        let j = choose|j: int| 0 <= j < old_result.len() && old_result[j]@ == x;
        assert(ids_view(new_result)[j] == x);
    }
}

} // verus!
