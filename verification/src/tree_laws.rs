//! What every tree of files keeps, and what a removal and a move do to one.

use vstd::prelude::*;

use crate::path::{at_or_beneath, is_ancestor, lemma_rebased_back, rebased};
use crate::path_laws::{
    is_normal, lemma_ancestor_is_normal, lemma_ancestor_transitive, lemma_ancestors_of_normal,
    lemma_beneath_is_ancestor, lemma_rebased_is_normal,
};
use crate::state::FsView;
use crate::tree::{lands_at, moved, occupied, relocated, with_ancestors, without};

verus! {

/// Every node lies at a normalized path, and with it every directory on the way
/// to it is there.
pub open spec fn is_tree(files: Map<Seq<char>, FsView>) -> bool {
    &&& forall|k: Seq<char>| #[trigger] files.contains_key(k) ==> is_normal(k)
    &&& forall|k: Seq<char>, q: Seq<char>|
        files.contains_key(k) && #[trigger] is_ancestor(q, k) ==> files.contains_key(q)
}

/// Making the directories on the way to a path keeps a tree a tree.
pub(crate) proof fn lemma_with_ancestors_is_tree(files: Map<Seq<char>, FsView>, p: Seq<char>)
    requires
        is_tree(files),
        is_normal(p),
    ensures
        is_tree(with_ancestors(files, p)),
{
    let after = with_ancestors(files, p);
    assert forall|k: Seq<char>| #[trigger] after.contains_key(k) implies is_normal(k) by {
        if !files.contains_key(k) {
            lemma_ancestor_is_normal(k, p);
        }
    }
    assert forall|k: Seq<char>, q: Seq<char>|
        after.contains_key(k) && #[trigger] is_ancestor(q, k) implies after.contains_key(q) by {
        if !files.contains_key(k) {
            lemma_ancestor_transitive(q, k, p);
        }
    }
}

/// Setting a node whose directories are there keeps a tree a tree.
pub(crate) proof fn lemma_insert_is_tree(files: Map<Seq<char>, FsView>, p: Seq<char>, node: FsView)
    requires
        is_tree(files),
        is_normal(p),
        forall|q: Seq<char>| #[trigger] is_ancestor(q, p) ==> files.contains_key(q),
    ensures
        is_tree(files.insert(p, node)),
{
    let after = files.insert(p, node);
    assert forall|k: Seq<char>| #[trigger] after.contains_key(k) implies is_normal(k) by {
        assert(k == p || files.contains_key(k));
    }
    assert forall|k: Seq<char>, q: Seq<char>|
        after.contains_key(k) && #[trigger] is_ancestor(q, k) implies after.contains_key(q) by {
        assert(k == p || files.contains_key(k));
        assert(files.contains_key(q));
    }
}

/// Removing a subtree keeps a tree a tree.
pub(crate) proof fn lemma_without_is_tree(files: Map<Seq<char>, FsView>, dir: Seq<char>)
    requires
        is_tree(files),
    ensures
        is_tree(without(files, dir)),
{
    let after = without(files, dir);
    assert forall|k: Seq<char>, q: Seq<char>|
        after.contains_key(k) && #[trigger] is_ancestor(q, k) implies after.contains_key(q) by {
        assert(files.contains_key(k));
        assert(files.contains_key(q));
        if at_or_beneath(q, dir) {
            lemma_ancestor_is_normal(q, k);
            lemma_beneath_transitive(k, q, dir);
        }
    }
    assert forall|k: Seq<char>| #[trigger] after.contains_key(k) implies is_normal(k) by {
        assert(files.contains_key(k));
    }
}

/// What lies beneath a node that lies beneath `dir` lies beneath `dir`.
proof fn lemma_beneath_transitive(k: Seq<char>, q: Seq<char>, dir: Seq<char>)
    requires
        at_or_beneath(k, q),
        at_or_beneath(q, dir),
    ensures
        at_or_beneath(k, dir),
{
    if k != q && q != dir {
        let n = dir.len() as int;
        assert(dir.push('/') =~= q.subrange(0, n + 1));
        assert(q.push('/') =~= k.subrange(0, q.len() + 1int));
        assert(dir.push('/') =~= k.subrange(0, n + 1)) by {
            assert forall|i: int| 0 <= i < n + 1 implies dir.push('/')[i] == k[i] by {
                assert(q.subrange(0, n + 1)[i] == q[i]);
                assert(q.push('/')[i] == k.subrange(0, q.len() + 1int)[i]);
            }
        }
    }
}

/// A directory on the way to a node beneath `dir` lies beneath `dir`, or on the
/// way to it.
proof fn lemma_ancestor_beneath(q: Seq<char>, k: Seq<char>, dir: Seq<char>)
    requires
        is_normal(k),
        is_normal(dir),
        at_or_beneath(k, dir),
        is_ancestor(q, k),
    ensures
        at_or_beneath(q, dir) || is_ancestor(q, dir),
{
    if k != dir {
        lemma_ancestors_of_normal(q, k);
        lemma_ancestors_of_normal(q, dir);
        let j = choose|j: int| 2 <= j < k.len() && #[trigger] k[j] == '/' && q == k.take(j);
        let n = dir.len() as int;
        let d = dir.push('/');
        assert(d =~= k.subrange(0, n + 1));
        assert forall|i: int| 0 <= i < n implies dir[i] == k[i] by {
            assert(d[i] == k.subrange(0, n + 1)[i]);
        }
        if j < n {
            assert(dir[j] == '/');
            assert(q =~= dir.take(j));
        } else if j == n {
            assert(q =~= dir);
        } else {
            assert(d =~= q.subrange(0, n + 1)) by {
                assert forall|i: int| 0 <= i < n + 1 implies d[i] == q[i] by {
                    assert(d[i] == k.subrange(0, n + 1)[i]);
                }
            }
        }
    }
}

/// The directories on the way to a node move along with it.
proof fn lemma_ancestor_moves_along(q: Seq<char>, k: Seq<char>, from: Seq<char>, to: Seq<char>)
    requires
        is_normal(k),
        is_normal(from),
        is_normal(to),
        at_or_beneath(k, from),
        at_or_beneath(q, from),
        is_ancestor(q, k),
    ensures
        is_ancestor(rebased(q, from, to), rebased(k, from, to)),
{
    let rk = rebased(k, from, to);
    let rq = rebased(q, from, to);
    lemma_rebased_is_normal(k, from, to);
    lemma_ancestors_of_normal(q, k);
    lemma_ancestors_of_normal(rq, rk);
    let f = from.len() as int;
    let t = to.len() as int;
    let j = choose|j: int| 2 <= j < k.len() && #[trigger] k[j] == '/' && q == k.take(j);
    assert(f <= j);
    assert(rk[j - f + t] == '/');
    assert(rq =~= rk.take(j - f + t));
}

proof fn lemma_lands_at_normal(files: Map<Seq<char>, FsView>, from: Seq<char>, to: Seq<char>, k: Seq<char>)
    requires
        is_tree(files),
        is_normal(from),
        is_normal(to),
        lands_at(files, from, to, k),
    ensures
        is_normal(k),
        at_or_beneath(rebased(k, to, from), from),
        rebased(rebased(k, to, from), from, to) == k,
{
    let origin = rebased(k, to, from);
    lemma_rebased_back(k, to, from);
    assert(files.contains_key(origin));
    lemma_rebased_is_normal(origin, from, to);
}

/// Moving a subtree keeps a tree a tree.
pub(crate) proof fn lemma_relocated_is_tree(files: Map<Seq<char>, FsView>, from: Seq<char>, to: Seq<char>)
    requires
        is_tree(files),
        is_normal(from),
        is_normal(to),
    ensures
        is_tree(relocated(files, from, to)),
{
    let rest = with_ancestors(without(files, from), to);
    let after = relocated(files, from, to);
    lemma_without_is_tree(files, from);
    lemma_with_ancestors_is_tree(without(files, from), to);
    assert forall|k: Seq<char>| #[trigger] after.contains_key(k) implies is_normal(k) by {
        if lands_at(files, from, to, k) {
            lemma_lands_at_normal(files, from, to, k);
        } else {
            assert(rest.contains_key(k));
        }
    }
    assert forall|k: Seq<char>, q: Seq<char>|
        after.contains_key(k) && #[trigger] is_ancestor(q, k) implies after.contains_key(q) by {
        if lands_at(files, from, to, k) {
            lemma_lands_at_normal(files, from, to, k);
            lemma_ancestor_beneath(q, k, to);
            if at_or_beneath(q, to) {
                let origin = rebased(k, to, from);
                lemma_ancestor_moves_along(q, k, to, from);
                assert(files.contains_key(origin));
                assert(files.contains_key(rebased(q, to, from)));
                assert(lands_at(files, from, to, q));
            } else {
                assert(rest.contains_key(q));
            }
        } else {
            assert(rest.contains_key(k));
            assert(rest.contains_key(q));
        }
    }
}

/// A removal takes away the node at a path and everything beneath it, and
/// nothing else.
pub proof fn law_removal_takes_the_whole_subtree(files: Map<Seq<char>, FsView>, dir: Seq<char>)
    ensures
        !occupied(without(files, dir), dir),
        forall|k: Seq<char>|
            !at_or_beneath(k, dir) ==> (#[trigger] without(files, dir).contains_key(k) <==> files.contains_key(k)),
        forall|k: Seq<char>| #[trigger]
            without(files, dir).contains_key(k) ==> without(files, dir)[k] == files[k],
{
}

/// Where a move is refused, nothing changes: onto itself, beneath itself, onto a
/// node that is there, or from where nothing is.
pub proof fn law_refused_move_changes_nothing(files: Map<Seq<char>, FsView>, from: Seq<char>, to: Seq<char>)
    ensures
        at_or_beneath(to, from) || files.contains_key(to) || !occupied(files, from) ==> moved(files, from, to)
            == files,
{
}

proof fn lemma_move_is_apart(files: Map<Seq<char>, FsView>, from: Seq<char>, to: Seq<char>)
    requires
        is_tree(files),
        is_normal(from),
        is_normal(to),
        !at_or_beneath(to, from),
        !files.contains_key(to),
        occupied(files, from),
    ensures
        files.contains_key(from),
        !at_or_beneath(from, to),
        !occupied(files, to),
        forall|k: Seq<char>| at_or_beneath(k, to) ==> !(#[trigger] at_or_beneath(k, from)),
{
    let x = choose|k: Seq<char>| #[trigger] files.contains_key(k) && at_or_beneath(k, from);
    if x != from {
        lemma_beneath_is_ancestor(x, from);
    }
    assert(files.contains_key(from));
    if at_or_beneath(from, to) {
        lemma_beneath_is_ancestor(from, to);
    }
    assert forall|k: Seq<char>| #[trigger] files.contains_key(k) implies !at_or_beneath(k, to) by {
        if at_or_beneath(k, to) {
            lemma_beneath_is_ancestor(k, to);
        }
    }
    assert forall|k: Seq<char>| at_or_beneath(k, to) implies !(#[trigger] at_or_beneath(k, from)) by {
        if at_or_beneath(k, from) {
            lemma_nested(k, from, to);
        }
    }
}

/// Of two directories above one node, one lies beneath the other.
proof fn lemma_nested(k: Seq<char>, a: Seq<char>, b: Seq<char>)
    requires
        at_or_beneath(k, a),
        at_or_beneath(k, b),
    ensures
        at_or_beneath(a, b) || at_or_beneath(b, a),
{
    if k != a && k != b {
        let x = a.push('/');
        let y = b.push('/');
        assert(x =~= k.subrange(0, a.len() + 1int));
        assert(y =~= k.subrange(0, b.len() + 1int));
        assert forall|i: int| 0 <= i <= a.len() implies x[i] == k[i] by {
            assert(k.subrange(0, a.len() + 1int)[i] == k[i]);
        }
        assert forall|i: int| 0 <= i <= b.len() implies y[i] == k[i] by {
            assert(k.subrange(0, b.len() + 1int)[i] == k[i]);
        }
        if a.len() < b.len() {
            assert(x =~= b.subrange(0, a.len() + 1int)) by {
                assert forall|i: int| 0 <= i <= a.len() implies x[i] == b[i] by {
                    assert(b[i] == y[i]);
                }
            }
        } else if b.len() < a.len() {
            assert(y =~= a.subrange(0, b.len() + 1int)) by {
                assert forall|i: int| 0 <= i <= b.len() implies y[i] == a[i] by {
                    assert(a[i] == x[i]);
                }
            }
        } else {
            assert(a =~= b) by {
                assert forall|i: int| 0 <= i < a.len() implies a[i] == b[i] by {
                    assert(a[i] == x[i]);
                    assert(b[i] == y[i]);
                }
            }
        }
    }
}

/// A move carries every node of the subtree over, with what it holds, leaves
/// nothing behind and touches no other node: all it adds besides are the missing
/// directories on the way.
pub proof fn law_move_carries_the_whole_subtree(files: Map<Seq<char>, FsView>, from: Seq<char>, to: Seq<char>)
    requires
        is_tree(files),
        is_normal(from),
        is_normal(to),
        !at_or_beneath(to, from),
        !files.contains_key(to),
        occupied(files, from),
    ensures
        !occupied(moved(files, from, to), from),
        forall|k: Seq<char>| #[trigger]
            files.contains_key(k) && at_or_beneath(k, from) ==> moved(files, from, to).contains_key(
                rebased(k, from, to),
            ) && moved(files, from, to)[rebased(k, from, to)] == files[k],
        forall|k: Seq<char>| #[trigger]
            files.contains_key(k) && !at_or_beneath(k, from) ==> moved(files, from, to).contains_key(k) && moved(
                files,
                from,
                to,
            )[k] == files[k],
        forall|k: Seq<char>| #[trigger]
            moved(files, from, to).contains_key(k) ==> (files.contains_key(k) && !at_or_beneath(k, from)) || (
            at_or_beneath(k, to) && files.contains_key(rebased(k, to, from))) || (is_ancestor(k, to) && moved(
                files,
                from,
                to,
            )[k] == FsView::Dir),
{
    let after = moved(files, from, to);
    lemma_move_is_apart(files, from, to);
    assert forall|k: Seq<char>| #[trigger] after.contains_key(k) implies !at_or_beneath(k, from) by {
        if at_or_beneath(k, from) && !lands_at(files, from, to, k) {
            assert(is_ancestor(k, to));
            lemma_ancestor_is_normal(k, to);
            lemma_beneath_transitive(to, k, from);
        }
    }
    assert forall|k: Seq<char>| #[trigger] files.contains_key(k) && at_or_beneath(k, from) implies after.contains_key(
        rebased(k, from, to),
    ) && after[rebased(k, from, to)] == files[k] by {
        lemma_rebased_back(k, from, to);
        assert(lands_at(files, from, to, rebased(k, from, to)));
    }
    assert forall|k: Seq<char>| #[trigger] files.contains_key(k) && !at_or_beneath(k, from) implies after.contains_key(
        k,
    ) && after[k] == files[k] by {
        assert(!at_or_beneath(k, to));
    }
}

/// Moving a subtree there and back again restores the tree, but for the
/// directories that were made on the way there.
pub proof fn law_move_there_and_back(files: Map<Seq<char>, FsView>, from: Seq<char>, to: Seq<char>)
    requires
        is_tree(files),
        is_normal(from),
        is_normal(to),
        !at_or_beneath(to, from),
        !files.contains_key(to),
        occupied(files, from),
    ensures
        moved(moved(files, from, to), to, from) == with_ancestors(files, to),
{
    let there = moved(files, from, to);
    let back = moved(there, to, from);
    let want = with_ancestors(files, to);
    law_move_carries_the_whole_subtree(files, from, to);
    lemma_move_is_apart(files, from, to);
    lemma_rebased_back(from, from, to);
    assert(rebased(from, from, to) =~= to);
    assert(there.contains_key(to));
    assert(occupied(there, to));
    assert(!there.contains_key(from)) by {
        if there.contains_key(from) {
            assert(occupied(there, from));
        }
    }
    assert(back == relocated(there, to, from));
    assert forall|k: Seq<char>| back.contains_key(k) <==> want.contains_key(k) by {
        lemma_back_has(files, from, to, k);
    }
    assert forall|k: Seq<char>| #[trigger] back.contains_key(k) implies back[k] == want[k] by {
        lemma_back_has(files, from, to, k);
    }
    assert(back =~= want);
}

proof fn lemma_back_has(files: Map<Seq<char>, FsView>, from: Seq<char>, to: Seq<char>, k: Seq<char>)
    requires
        is_tree(files),
        is_normal(from),
        is_normal(to),
        !at_or_beneath(to, from),
        !files.contains_key(to),
        occupied(files, from),
    ensures
        ({
            let back = relocated(moved(files, from, to), to, from);
            let want = with_ancestors(files, to);
            &&& back.contains_key(k) <==> want.contains_key(k)
            &&& back.contains_key(k) ==> back[k] == want[k]
        }),
{
    let there = moved(files, from, to);
    let back = relocated(there, to, from);
    let want = with_ancestors(files, to);
    law_move_carries_the_whole_subtree(files, from, to);
    lemma_move_is_apart(files, from, to);
    let away = rebased(k, from, to);
    if at_or_beneath(k, from) {
        lemma_rebased_back(k, from, to);
        assert(!is_ancestor(k, to)) by {
            if is_ancestor(k, to) {
                lemma_ancestor_is_normal(k, to);
                lemma_beneath_transitive(to, k, from);
            }
        }
        if files.contains_key(k) {
            assert(there.contains_key(away) && there[away] == files[k]);
            assert(lands_at(there, to, from, k));
        } else {
            assert(!there.contains_key(away)) by {
                if there.contains_key(away) {
                    assert(at_or_beneath(away, to));
                    assert(!files.contains_key(away));
                    assert(!is_ancestor(away, to)) by {
                        if is_ancestor(away, to) {
                            lemma_ancestor_is_normal(away, to);
                            assert(away.len() < to.len());
                        }
                    }
                }
            }
            assert(!lands_at(there, to, from, k));
            assert(!without(there, to).contains_key(k)) by {
                if there.contains_key(k) {
                    assert(occupied(there, from));
                }
            }
            assert(!is_ancestor(k, from)) by {
                if is_ancestor(k, from) {
                    lemma_ancestor_is_normal(k, from);
                }
            }
        }
    } else {
        assert(!lands_at(there, to, from, k));
        if is_ancestor(k, from) {
            assert(files.contains_key(k));
        }
        if at_or_beneath(k, to) {
            assert(!files.contains_key(k));
            assert(!is_ancestor(k, to)) by {
                if is_ancestor(k, to) {
                    lemma_ancestor_is_normal(k, to);
                }
            }
            assert(!is_ancestor(k, from)) by {
                if is_ancestor(k, from) {
                    lemma_ancestor_is_normal(k, from);
                    lemma_beneath_transitive(from, k, to);
                }
            }
        } else if files.contains_key(k) {
            assert(there.contains_key(k) && there[k] == files[k]);
        } else if is_ancestor(k, to) {
            assert(there.contains_key(k));
        }
    }
}

} // verus!
