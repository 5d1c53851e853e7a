//! What the depth-first discovery finds: each package that can be reached, once.

use vstd::prelude::*;
use vstd::set_lib::lemma_len_subset;
use crate::data::metadata::Package;
use crate::data::resolve::{closure_order, discover, lemma_push_contains};
use crate::data::store::lookup;

verus! {

/// `to` is a direct dependency of the record that `store` gives for `from`.
pub open spec fn depends_on(store: Map<Seq<char>, Package>, from: Seq<char>, to: Seq<char>) -> bool {
    lookup(store, from).dependencies.contains(to)
}

/// The identifier behind position `i` of `path` is a direct dependency of the one at `i`.
pub open spec fn follows(store: Map<Seq<char>, Package>, path: Seq<Seq<char>>, i: int) -> bool {
    depends_on(store, path[i], path[i + 1])
}

/// `path` begins with one of `start` and goes from each identifier to one of
/// its direct dependencies.
pub open spec fn is_walk(store: Map<Seq<char>, Package>, start: Seq<Seq<char>>, path: Seq<Seq<char>>) -> bool {
    &&& path.len() > 0
    &&& start.contains(path[0])
    &&& forall|i: int| 0 <= i < path.len() - 1 ==> #[trigger] follows(store, path, i)
}

/// `id` can be reached from `parent` by following dependencies.
pub open spec fn reachable(store: Map<Seq<char>, Package>, parent: Package, id: Seq<char>) -> bool {
    exists|path: Seq<Seq<char>>| is_walk(store, parent.dependencies, path) && path.last() == id
}

/// `id` can be reached from `parent` by following dependencies without
/// coming across `parent`'s own identifier.
pub open spec fn reachable_outside(store: Map<Seq<char>, Package>, parent: Package, id: Seq<char>) -> bool {
    exists|path: Seq<Seq<char>>|
        is_walk(store, parent.dependencies, path) && !path.contains(parent.id) && path.last() == id
}

/// The identifiers with a record in `store` that `found` does not hold.
spec fn unexplored(store: Map<Seq<char>, Package>, found: Seq<Seq<char>>) -> Set<Seq<char>> {
    store.dom().filter(|id: Seq<char>| !found.contains(id))
}

proof fn lemma_first_or_rest(s: Seq<Seq<char>>)
    requires
        s.len() > 0,
    ensures
        forall|y: Seq<char>| s.contains(y) <==> y == s[0] || s.drop_first().contains(y),
{
    assert forall|y: Seq<char>| s.contains(y) <==> y == s[0] || s.drop_first().contains(y) by {
        if s.contains(y) {
            let i = choose|i: int| 0 <= i < s.len() && s[i] == y;
            if i > 0 {
                assert(s.drop_first()[i - 1] == y);
            }
        }
        if s.drop_first().contains(y) {
            let i = choose|i: int| 0 <= i < s.drop_first().len() && s.drop_first()[i] == y;
            assert(s[i + 1] == y);
        }
        if y == s[0] {
            assert(s[0] == y);
        }
    }
}

/// A walk stays a walk when more starting points are allowed.
proof fn lemma_walk_wider(
    store: Map<Seq<char>, Package>,
    narrow: Seq<Seq<char>>,
    wide: Seq<Seq<char>>,
    path: Seq<Seq<char>>,
)
    requires
        is_walk(store, narrow, path),
        forall|x: Seq<char>| narrow.contains(x) ==> wide.contains(x),
    ensures
        is_walk(store, wide, path),
{
}

/// A walk from the dependencies of `id` gives a walk from `id`.
proof fn lemma_walk_longer(
    store: Map<Seq<char>, Package>,
    start: Seq<Seq<char>>,
    id: Seq<char>,
    path: Seq<Seq<char>>,
    root: Seq<char>,
)
    requires
        start.contains(id),
        id != root,
        is_walk(store, lookup(store, id).dependencies, path),
        !path.contains(root),
    ensures
        is_walk(store, start, seq![id] + path),
        !(seq![id] + path).contains(root),
        (seq![id] + path).last() == path.last(),
{
    let longer = seq![id] + path;
    assert(longer[0] == id);
    assert forall|i: int| 0 <= i < longer.len() - 1 implies #[trigger] follows(store, longer, i) by {
        if i == 0 {
            assert(longer[1] == path[0]);
        } else {
            assert(follows(store, path, i - 1));
            assert(longer[i] == path[i - 1]);
            assert(longer[i + 1] == path[i]);
        }
    }
    if longer.contains(root) {
        let i = choose|i: int| 0 <= i < longer.len() && longer[i] == root;
        assert(i > 0);
        assert(path[i - 1] == root);
    }
}

/// What `discover` adds to `found`: nothing twice, never `root`, each
/// identifier of `pending`, each dependency of what it adds, and nothing
/// that no walk from `pending` leads to.
proof fn lemma_discover(
    store: Map<Seq<char>, Package>,
    root: Seq<char>,
    pending: Seq<Seq<char>>,
    found: Seq<Seq<char>>,
    depth: nat,
)
    requires
        store.dom().finite(),
        found.no_duplicates(),
        !found.contains(root),
        unexplored(store, found).len() <= depth,
    ensures
        ({
            let r = discover(store, root, pending, found, depth);
            &&& r.no_duplicates()
            &&& !r.contains(root)
            &&& forall|x: Seq<char>| found.contains(x) ==> r.contains(x)
            &&& forall|x: Seq<char>| pending.contains(x) && x != root ==> r.contains(x)
            &&& forall|v: Seq<char>, e: Seq<char>|
                r.contains(v) && !found.contains(v) && #[trigger] depends_on(store, v, e) && e != root
                    ==> r.contains(e)
            &&& forall|x: Seq<char>|
                r.contains(x) && !found.contains(x) ==> exists|path: Seq<Seq<char>>|
                    #[trigger] is_walk(store, pending, path) && !path.contains(root) && path.last() == x
        }),
    decreases depth, pending.len(),
{
    let r = discover(store, root, pending, found, depth);
    if pending.len() == 0 {
    } else {
        let id = pending[0];
        let rest = pending.drop_first();
        lemma_first_or_rest(pending);
        if id == root || found.contains(id) {
            lemma_discover(store, root, rest, found, depth);
            assert forall|x: Seq<char>| r.contains(x) && !found.contains(x) implies exists|
                path: Seq<Seq<char>>,
            | #[trigger] is_walk(store, pending, path) && !path.contains(root) && path.last() == x by {
                let path = choose|path: Seq<Seq<char>>| #[trigger]
                    is_walk(store, rest, path) && !path.contains(root) && path.last() == x;
                lemma_walk_wider(store, rest, pending, path);
            }
        } else {
            let grown = found.push(id);
            lemma_push_contains(found, id);
            let deps = lookup(store, id).dependencies;
            let single = seq![id];
            assert(is_walk(store, pending, single) && !single.contains(root) && single.last() == id) by {
                assert(single[0] == id);
            }
            assert(unexplored(store, grown).subset_of(unexplored(store, found)));
            lemma_len_subset(unexplored(store, found), store.dom());
            lemma_len_subset(unexplored(store, grown), unexplored(store, found));
            let below = if depth == 0 {
                grown
            } else {
                discover(store, root, deps, grown, (depth - 1) as nat)
            };
            if store.contains_key(id) {
                assert(unexplored(store, found).contains(id));
                assert(unexplored(store, grown) =~= unexplored(store, found).remove(id));
                assert(depth > 0);
                lemma_discover(store, root, deps, grown, (depth - 1) as nat);
            } else {
                assert(deps.len() == 0);
                if depth > 0 {
                    assert(below == grown);
                }
            }
            // What holds of `below` over `grown`, whichever way it was made.
            assert(below.no_duplicates() && !below.contains(root));
            assert(forall|x: Seq<char>| grown.contains(x) ==> below.contains(x));
            assert(forall|x: Seq<char>| deps.contains(x) && x != root ==> below.contains(x)) by {
                if !store.contains_key(id) {
                    assert(forall|x: Seq<char>| !deps.contains(x));
                }
            }
            assert(unexplored(store, below).subset_of(unexplored(store, found)));
            lemma_len_subset(unexplored(store, below), unexplored(store, found));
            lemma_discover(store, root, rest, below, depth);
            assert(r == discover(store, root, rest, below, depth));
            assert forall|v: Seq<char>, e: Seq<char>|
                r.contains(v) && !found.contains(v) && #[trigger] depends_on(store, v, e) && e != root
                    implies r.contains(e) by {
                if !below.contains(v) {
                } else if v == id {
                    assert(deps.contains(e));
                    assert(below.contains(e));
                } else {
                    assert(!grown.contains(v));
                    assert(store.contains_key(id) && depth > 0);
                    assert(below.contains(e));
                }
            }
            assert forall|x: Seq<char>| r.contains(x) && !found.contains(x) implies exists|
                path: Seq<Seq<char>>,
            | #[trigger] is_walk(store, pending, path) && !path.contains(root) && path.last() == x by {
                if !below.contains(x) {
                    let path = choose|path: Seq<Seq<char>>| #[trigger]
                        is_walk(store, rest, path) && !path.contains(root) && path.last() == x;
                    lemma_walk_wider(store, rest, pending, path);
                } else if x == id {
                    assert(is_walk(store, pending, single));
                } else {
                    assert(!grown.contains(x));
                    assert(store.contains_key(id) && depth > 0);
                    let path = choose|path: Seq<Seq<char>>| #[trigger]
                        is_walk(store, deps, path) && !path.contains(root) && path.last() == x;
                    lemma_walk_longer(store, pending, id, path, root);
                    assert(is_walk(store, pending, seq![id] + path));
                }
            }
        }
    }
}

/// With a depth that is not less than the number of records still to be
/// found, the depth does not matter.
proof fn lemma_depth_enough(
    store: Map<Seq<char>, Package>,
    root: Seq<char>,
    pending: Seq<Seq<char>>,
    found: Seq<Seq<char>>,
    depth: nat,
    other: nat,
)
    requires
        store.dom().finite(),
        found.no_duplicates(),
        !found.contains(root),
        unexplored(store, found).len() <= depth,
        unexplored(store, found).len() <= other,
    ensures
        discover(store, root, pending, found, depth) == discover(store, root, pending, found, other),
    decreases depth, pending.len(),
{
    if pending.len() > 0 {
        let id = pending[0];
        let rest = pending.drop_first();
        if id == root || found.contains(id) {
            lemma_depth_enough(store, root, rest, found, depth, other);
        } else {
            let grown = found.push(id);
            let deps = lookup(store, id).dependencies;
            lemma_push_contains(found, id);
            assert(unexplored(store, grown).subset_of(unexplored(store, found)));
            lemma_len_subset(unexplored(store, found), store.dom());
            lemma_len_subset(unexplored(store, grown), unexplored(store, found));
            let below = if depth == 0 {
                grown
            } else {
                discover(store, root, deps, grown, (depth - 1) as nat)
            };
            let other_below = if other == 0 {
                grown
            } else {
                discover(store, root, deps, grown, (other - 1) as nat)
            };
            if store.contains_key(id) {
                assert(unexplored(store, found).contains(id));
                assert(unexplored(store, grown) =~= unexplored(store, found).remove(id));
                lemma_depth_enough(store, root, deps, grown, (depth - 1) as nat, (other - 1) as nat);
                lemma_discover(store, root, deps, grown, (depth - 1) as nat);
            } else {
                assert(deps.len() == 0);
                if depth > 0 {
                    assert(below == grown);
                }
                if other > 0 {
                    assert(other_below == grown);
                }
            }
            assert(below == other_below);
            assert(forall|x: Seq<char>| grown.contains(x) ==> below.contains(x));
            assert(unexplored(store, below).subset_of(unexplored(store, found)));
            lemma_len_subset(unexplored(store, below), unexplored(store, found));
            lemma_depth_enough(store, root, rest, below, depth, other);
        }
    }
}

/// The depth that the closure is given is enough: any depth that is not
/// less than the number of records gives the same identifiers in the same order.
pub proof fn law_depth_is_enough(store: Map<Seq<char>, Package>, parent: Package, depth: nat)
    requires
        store.dom().finite(),
        depth >= store.dom().len(),
    ensures
        discover(store, parent.id, parent.dependencies, Seq::empty(), depth) == closure_order(store, parent),
{
    let none = Seq::<Seq<char>>::empty();
    assert(unexplored(store, none).subset_of(store.dom()));
    lemma_len_subset(unexplored(store, none), store.dom());
    lemma_depth_enough(store, parent.id, parent.dependencies, none, depth, store.dom().len());
}

/// Every identifier on a walk that stays off `parent`'s identifier is in the closure.
proof fn lemma_walk_is_found(store: Map<Seq<char>, Package>, parent: Package, path: Seq<Seq<char>>, i: int)
    requires
        store.dom().finite(),
        is_walk(store, parent.dependencies, path),
        !path.contains(parent.id),
        0 <= i < path.len(),
    ensures
        closure_order(store, parent).contains(path[i]),
    decreases i,
{
    let none = Seq::<Seq<char>>::empty();
    assert(unexplored(store, none).subset_of(store.dom()));
    lemma_len_subset(unexplored(store, none), store.dom());
    lemma_discover(store, parent.id, parent.dependencies, none, store.dom().len());
    assert(path[i] != parent.id);
    if i > 0 {
        lemma_walk_is_found(store, parent, path, i - 1);
        assert(follows(store, path, i - 1));
        assert(depends_on(store, path[i - 1], path[i]));
    }
}

/// The closure holds no identifier twice, never the identifier of the
/// package it starts from, and exactly the identifiers that a walk along
/// dependencies reaches without coming across that identifier. This holds
/// of every graph, with or without cycles.
pub proof fn law_closure_exact(store: Map<Seq<char>, Package>, parent: Package)
    requires
        store.dom().finite(),
    ensures
        closure_order(store, parent).no_duplicates(),
        !closure_order(store, parent).contains(parent.id),
        forall|id: Seq<char>|
            closure_order(store, parent).contains(id) <==> reachable_outside(store, parent, id),
{
    let none = Seq::<Seq<char>>::empty();
    let r = closure_order(store, parent);
    assert(unexplored(store, none).subset_of(store.dom()));
    lemma_len_subset(unexplored(store, none), store.dom());
    lemma_discover(store, parent.id, parent.dependencies, none, store.dom().len());
    assert forall|id: Seq<char>| r.contains(id) <==> reachable_outside(store, parent, id) by {
        if r.contains(id) {
            assert(!none.contains(id));
            let path = choose|path: Seq<Seq<char>>| #[trigger]
                is_walk(store, parent.dependencies, path) && !path.contains(parent.id) && path.last() == id;
            assert(reachable_outside(store, parent, id));
        }
        if reachable_outside(store, parent, id) {
            let path = choose|path: Seq<Seq<char>>|
                is_walk(store, parent.dependencies, path) && !path.contains(parent.id) && path.last() == id;
            lemma_walk_is_found(store, parent, path, path.len() - 1);
        }
    }
}

/// A walk from a package whose dependencies are those that the store gives
/// for its identifier can leave out every round through that identifier.
proof fn lemma_shortcut(store: Map<Seq<char>, Package>, parent: Package, path: Seq<Seq<char>>) -> (short: Seq<
    Seq<char>,
>)
    requires
        lookup(store, parent.id).dependencies == parent.dependencies,
        is_walk(store, parent.dependencies, path),
        path.last() != parent.id,
    ensures
        is_walk(store, parent.dependencies, short),
        !short.contains(parent.id),
        short.last() == path.last(),
    decreases path.len(),
{
    if path.contains(parent.id) {
        let k = choose|k: int| 0 <= k < path.len() && path[k] == parent.id;
        let rest = path.skip(k + 1);
        assert(follows(store, path, k));
        assert(rest[0] == path[k + 1]);
        assert forall|i: int| 0 <= i < rest.len() - 1 implies #[trigger] follows(store, rest, i) by {
            assert(follows(store, path, i + k + 1));
        }
        lemma_shortcut(store, parent, rest)
    } else {
        path
    }
}

/// For a package whose dependencies are those that the store gives for its
/// identifier, the closure holds exactly the identifiers that can be
/// reached from it, but for its own. This holds with and without cycles.
pub proof fn law_closure_of_stored(store: Map<Seq<char>, Package>, parent: Package)
    requires
        store.dom().finite(),
        lookup(store, parent.id).dependencies == parent.dependencies,
    ensures
        closure_order(store, parent).no_duplicates(),
        forall|id: Seq<char>|
            closure_order(store, parent).contains(id) <==> reachable(store, parent, id) && id != parent.id,
{
    law_closure_exact(store, parent);
    assert forall|id: Seq<char>| reachable_outside(store, parent, id) implies reachable(store, parent, id) && id
        != parent.id by {
        let path = choose|path: Seq<Seq<char>>|
            is_walk(store, parent.dependencies, path) && !path.contains(parent.id) && path.last() == id;
        assert(is_walk(store, parent.dependencies, path) && path.last() == id);
        assert(path[path.len() - 1] == id);
    }
    assert forall|id: Seq<char>| reachable(store, parent, id) && id != parent.id implies reachable_outside(
        store,
        parent,
        id,
    ) by {
        let path = choose|path: Seq<Seq<char>>| is_walk(store, parent.dependencies, path) && path.last() == id;
        let short = lemma_shortcut(store, parent, path);
        assert(is_walk(store, parent.dependencies, short) && !short.contains(parent.id) && short.last() == id);
    }
}

/// Where no walk along dependencies leads from a package back to itself, the
/// closure holds exactly the identifiers that can be reached from it, each once.
pub proof fn law_closure_acyclic(store: Map<Seq<char>, Package>, parent: Package)
    requires
        store.dom().finite(),
        !reachable(store, parent, parent.id),
    ensures
        closure_order(store, parent).no_duplicates(),
        forall|id: Seq<char>| closure_order(store, parent).contains(id) <==> reachable(store, parent, id),
{
    law_closure_exact(store, parent);
    assert forall|id: Seq<char>| reachable_outside(store, parent, id) implies reachable(store, parent, id) by {
        let path = choose|path: Seq<Seq<char>>|
            is_walk(store, parent.dependencies, path) && !path.contains(parent.id) && path.last() == id;
        assert(is_walk(store, parent.dependencies, path) && path.last() == id);
    }
    assert forall|id: Seq<char>| reachable(store, parent, id) implies reachable_outside(store, parent, id) by {
        let path = choose|path: Seq<Seq<char>>| is_walk(store, parent.dependencies, path) && path.last() == id;
        if path.contains(parent.id) {
            let i = choose|i: int| 0 <= i < path.len() && path[i] == parent.id;
            let back = path.take(i + 1);
            assert(back[0] == path[0]);
            assert forall|k: int| 0 <= k < back.len() - 1 implies #[trigger] follows(store, back, k) by {
                assert(follows(store, path, k));
            }
            assert(is_walk(store, parent.dependencies, back) && back.last() == parent.id);
        }
    }
}

} // verus!
