//! The virtual filesystem of a branch: nodes by their normalized paths.

use vstd::prelude::*;

use crate::path::{
    at_or_beneath, is_ancestor, is_at_or_beneath, leading_slashes, lemma_leading_slashes, lemma_rebased_back,
    rebase, rebased,
};
use crate::state::{FsNode, FsView};
use crate::text::{chars_of, text_of};
use crate::text_map::{lists_keys, texts, TextMap};

verus! {

/// `files` with every missing directory on the way to `path` made.
pub open spec fn with_ancestors(files: Map<Seq<char>, FsView>, path: Seq<char>) -> Map<Seq<char>, FsView> {
    Map::new(
        |k: Seq<char>| files.contains_key(k) || is_ancestor(k, path),
        |k: Seq<char>|
            if files.contains_key(k) {
                files[k]
            } else {
                FsView::Dir
            },
    )
}

/// `files` without `dir` and everything beneath it.
pub open spec fn without(files: Map<Seq<char>, FsView>, dir: Seq<char>) -> Map<Seq<char>, FsView> {
    Map::new(|k: Seq<char>| files.contains_key(k) && !at_or_beneath(k, dir), |k: Seq<char>| files[k])
}

/// `k` is where a node of `files` comes to lie when `from` becomes `to`.
pub open spec fn lands_at(files: Map<Seq<char>, FsView>, from: Seq<char>, to: Seq<char>, k: Seq<char>) -> bool {
    at_or_beneath(k, to) && files.contains_key(rebased(k, to, from))
}

/// `files` after `from` and everything beneath it has become `to`, with the
/// directories on the way to it made.
pub open spec fn relocated(files: Map<Seq<char>, FsView>, from: Seq<char>, to: Seq<char>) -> Map<
    Seq<char>,
    FsView,
> {
    let rest = with_ancestors(without(files, from), to);
    Map::new(
        |k: Seq<char>| rest.contains_key(k) || lands_at(files, from, to, k),
        |k: Seq<char>|
            if lands_at(files, from, to, k) {
                files[rebased(k, to, from)]
            } else {
                rest[k]
            },
    )
}

/// There is a node at `dir` or beneath it.
pub open spec fn occupied(files: Map<Seq<char>, FsView>, dir: Seq<char>) -> bool {
    exists|k: Seq<char>| #[trigger] files.contains_key(k) && at_or_beneath(k, dir)
}

/// `files` after a move. Nothing moves onto itself, beneath itself or onto
/// another node, and nothing moves where there is nothing.
pub open spec fn moved(files: Map<Seq<char>, FsView>, from: Seq<char>, to: Seq<char>) -> Map<Seq<char>, FsView> {
    if at_or_beneath(to, from) || files.contains_key(to) || !occupied(files, from) {
        files
    } else {
        relocated(files, from, to)
    }
}

/// Makes every missing directory on the way to `path`.
pub fn ensure_parent_dirs(files: &mut TextMap<FsNode>, path: &str)
    ensures
        final(files)@ == with_ancestors(old(files)@, path@),
{
    let chars = chars_of(path);
    let n = chars.len();
    let mut start: usize = 0;
    assert(path@.skip(0) =~= path@);
    while start < n && chars[start] == '/'
        invariant
            chars@ == path@,
            n == chars@.len(),
            start <= n,
            leading_slashes(path@) == start + leading_slashes(path@.skip(start as int)),
        decreases n - start,
    {
        assert(path@.skip(start as int).drop_first() =~= path@.skip(start + 1));
        start = start + 1;
    }
    let ghost t = path@.skip(leading_slashes(path@) as int);
    let ghost given = files@;
    assert(start == leading_slashes(path@));
    let mut i: usize = start;
    while i < n
        invariant
            chars@ == path@,
            n == chars@.len(),
            start <= i <= n,
            start == leading_slashes(path@),
            t == path@.skip(start as int),
            forall|k: Seq<char>| #[trigger]
                files@.contains_key(k) <==> given.contains_key(k) || exists|j: int|
                    0 <= j < i - start && #[trigger] t[j] == '/' && k == seq!['/'] + t.take(j),
            forall|k: Seq<char>| #[trigger]
                files@.contains_key(k) ==> files@[k] == (if given.contains_key(k) {
                    given[k]
                } else {
                    FsView::Dir
                }),
        decreases n - i,
    {
        let ghost before = files@;
        if chars[i] == '/' {
            let mut dir = String::new();
            dir.push('/');
            let head = text_of(&chars, start, i);
            dir.push_str(head.as_str());
            let ghost d = dir@;
            let ghost m = i - start;
            assert(d =~= seq!['/'] + t.take(m)) by {
                assert(head@ =~= t.take(m));
            }
            files.insert_if_absent(dir, FsNode::Dir);
            proof {
                assert(t[m] == '/');
                assert forall|k: Seq<char>| #[trigger] files@.contains_key(k) <==> given.contains_key(k) || exists|
                    j: int,
                |
                    0 <= j < i + 1 - start && #[trigger] t[j] == '/' && k == seq!['/'] + t.take(j) by {
                    if before.contains_key(k) && !given.contains_key(k) {
                        let j = choose|j: int|
                            0 <= j < i - start && #[trigger] t[j] == '/' && k == seq!['/'] + t.take(j);
                        assert(t[j] == '/');
                    }
                    if exists|j: int| 0 <= j < i + 1 - start && #[trigger] t[j] == '/' && k == seq!['/'] + t.take(j) {
                        let j = choose|j: int|
                            0 <= j < i + 1 - start && #[trigger] t[j] == '/' && k == seq!['/'] + t.take(j);
                        if j == m {
                            assert(k == d);
                        } else {
                            assert(before.contains_key(k));
                        }
                    }
                }
            }
        } else {
            proof {
                assert(t[i - start] != '/');
            }
        }
        i = i + 1;
    }
    proof {
        lemma_leading_slashes(path@);
        assert forall|k: Seq<char>| files@.contains_key(k) <==> with_ancestors(given, path@).contains_key(k) by {
            if is_ancestor(k, path@) {
                let j = choose|j: int| 0 <= j < t.len() && #[trigger] t[j] == '/' && k == seq!['/'] + t.take(j);
                assert(t[j] == '/');
            }
        }
        assert(files@ =~= with_ancestors(given, path@));
    }
}

/// Takes `dir` and everything beneath it out of `files`: the paths, each beside
/// its node, come back in the order of the paths.
fn take_out(files: &mut TextMap<FsNode>, dir: &str) -> (r: Vec<(String, FsNode)>)
    ensures
        final(files)@ == without(old(files)@, dir@),
        forall|i: int|
            0 <= i < r@.len() ==> {
                let k = (#[trigger] r@[i]).0@;
                &&& old(files)@.contains_key(k)
                &&& at_or_beneath(k, dir@)
                &&& r@[i].1@ == old(files)@[k]
            },
        forall|k: Seq<char>|
            #![trigger old(files)@.contains_key(k)]
            old(files)@.contains_key(k) && at_or_beneath(k, dir@) ==> exists|i: int|
                0 <= i < r@.len() && (#[trigger] r@[i]).0@ == k,
        forall|i: int, j: int| 0 <= i < j < r@.len() ==> (#[trigger] r@[i]).0@ != (#[trigger] r@[j]).0@,
{
    let keys = files.keys();
    let ghost given = files@;
    let ghost names = texts(keys@);
    let mut r: Vec<(String, FsNode)> = Vec::new();
    let mut i: usize = 0;
    while i < keys.len()
        invariant
            i <= keys@.len(),
            names == texts(keys@),
            lists_keys(names, given),
            forall|k: Seq<char>| #[trigger]
                files@.contains_key(k) <==> given.contains_key(k) && !(at_or_beneath(k, dir@) && names.take(
                    i as int,
                ).contains(k)),
            forall|k: Seq<char>| #[trigger] files@.contains_key(k) ==> files@[k] == given[k],
            forall|j: int|
                0 <= j < r@.len() ==> {
                    let k = (#[trigger] r@[j]).0@;
                    &&& given.contains_key(k)
                    &&& at_or_beneath(k, dir@)
                    &&& r@[j].1@ == given[k]
                    &&& names.take(i as int).contains(k)
                },
            forall|k: Seq<char>|
                #![trigger names.take(i as int).contains(k)]
                names.take(i as int).contains(k) && at_or_beneath(k, dir@) ==> exists|j: int|
                    0 <= j < r@.len() && (#[trigger] r@[j]).0@ == k,
            forall|a: int, b: int| 0 <= a < b < r@.len() ==> (#[trigger] r@[a]).0@ != (#[trigger] r@[b]).0@,
        decreases keys@.len() - i,
    {
        let ghost before = files@;
        let ghost out = r@;
        let ghost name = names[i as int];
        let ghost seen = names.take(i as int);
        let ghost next = names.take(i + 1);
        proof {
            assert(next =~= seen.push(name));
            assert forall|k: Seq<char>| next.contains(k) <==> seen.contains(k) || k == name by {
                if seen.contains(k) {
                    let x = choose|x: int| 0 <= x < seen.len() && seen[x] == k;
                    assert(next[x] == k);
                }
                if k == name {
                    assert(next[i as int] == k);
                }
            }
            assert(names.contains(name));
            assert(given.contains_key(name));
            if seen.contains(name) {
                let x = choose|x: int| 0 <= x < seen.len() && seen[x] == name;
                assert(names[x] == name);
                crate::text::lemma_text_lt_total(name, name);
                assert(false);
            }
        }
        if is_at_or_beneath(keys[i].as_str(), dir) {
            match files.remove(keys[i].as_str()) {
                Some(node) => {
                    r.push((keys[i].clone(), node));
                },
                None => {
                    assert(false);
                },
            }
            proof {
                let last = out.len() as int;
                assert(r@[last].0@ == name);
                assert forall|k: Seq<char>| #[trigger] next.contains(k) && at_or_beneath(k, dir@) implies exists|
                    j: int,
                |
                    0 <= j < r@.len() && (#[trigger] r@[j]).0@ == k by {
                    if seen.contains(k) {
                        let j = choose|j: int| 0 <= j < out.len() && (#[trigger] out[j]).0@ == k;
                        assert(r@[j] == out[j]);
                    } else {
                        assert(r@[last].0@ == k);
                    }
                }
                assert forall|a: int, b: int| 0 <= a < b < r@.len() implies (#[trigger] r@[a]).0@ != (
                #[trigger] r@[b]).0@ by {
                    assert(r@[a] == out[a]);
                    if b < last {
                        assert(r@[b] == out[b]);
                    } else {
                        assert(seen.contains(out[a].0@));
                    }
                }
            }
        }
        i = i + 1;
    }
    proof {
        assert(names.take(i as int) =~= names);
        assert(files@ =~= without(given, dir@));
    }
    r
}

/// Removes `dir` and everything beneath it.
pub fn remove_tree(files: &mut TextMap<FsNode>, dir: &str)
    ensures
        final(files)@ == without(old(files)@, dir@),
{
    let _ = take_out(files, dir);
}

/// Moves `from` and everything beneath it to `to`.
pub fn move_tree(files: &mut TextMap<FsNode>, from: &str, to: &str)
    ensures
        final(files)@ == moved(old(files)@, from@, to@),
{
    if is_at_or_beneath(to, from) || files.contains_key(to) {
        return;
    }
    let ghost given = files@;
    let taken = take_out(files, from);
    if taken.len() == 0 {
        proof {
            assert forall|k: Seq<char>| given.contains_key(k) implies !at_or_beneath(k, from@) by {}
            assert(!occupied(given, from@));
            assert(files@ =~= given);
        }
        return;
    }
    assert(given.contains_key(taken@[0].0@));
    ensure_parent_dirs(files, to);
    let ghost rest = files@;
    let ghost count = taken@.len();
    let ghost mut i: int = 0;
    for entry in it: taken
        invariant
            it.seq() == taken@,
            i == it.index(),
            count == taken@.len(),
            forall|j: int|
                0 <= j < count ==> {
                    let k = (#[trigger] taken@[j]).0@;
                    &&& given.contains_key(k)
                    &&& at_or_beneath(k, from@)
                    &&& taken@[j].1@ == given[k]
                },
            forall|a: int, b: int| 0 <= a < b < count ==> (#[trigger] taken@[a]).0@ != (#[trigger] taken@[b]).0@,
            forall|k: Seq<char>| #[trigger]
                files@.contains_key(k) <==> rest.contains_key(k) || exists|j: int|
                    0 <= j < i && k == rebased((#[trigger] taken@[j]).0@, from@, to@),
            forall|k: Seq<char>|
                #![trigger files@[k]]
                rest.contains_key(k) && !(exists|j: int|
                    0 <= j < i && k == rebased((#[trigger] taken@[j]).0@, from@, to@)) ==> files@[k] == rest[k],
            forall|j: int|
                0 <= j < i ==> files@[rebased((#[trigger] taken@[j]).0@, from@, to@)] == taken@[j].1@,
    {
        let ghost before = files@;
        let (path, node) = entry;
        let target = rebase(path.as_str(), from, to);
        let ghost k0 = target@;
        files.insert(target, node);
        proof {
            let here = i;
            assert(taken@[here].0@ == path@);
            assert forall|j: int| 0 <= j < here implies rebased((#[trigger] taken@[j]).0@, from@, to@) != k0 by {
                lemma_rebased_back(taken@[j].0@, from@, to@);
                lemma_rebased_back(path@, from@, to@);
            }
            assert forall|k: Seq<char>| #[trigger] files@.contains_key(k) <==> rest.contains_key(k) || exists|
                j: int,
            |
                0 <= j < i + 1 && k == rebased((#[trigger] taken@[j]).0@, from@, to@) by {
                if before.contains_key(k) && !rest.contains_key(k) {
                    let j = choose|j: int| 0 <= j < i && k == rebased((#[trigger] taken@[j]).0@, from@, to@);
                    assert(k == rebased(taken@[j].0@, from@, to@));
                }
                if k == k0 {
                    assert(k == rebased(taken@[here].0@, from@, to@));
                }
            }
            assert forall|k: Seq<char>|
                #![trigger files@[k]]
                rest.contains_key(k) && !(exists|j: int|
                    0 <= j < i + 1 && k == rebased((#[trigger] taken@[j]).0@, from@, to@)) implies files@[k]
                == rest[k] by {
                if k == k0 {
                    assert(k == rebased(taken@[here].0@, from@, to@));
                }
                if exists|j: int| 0 <= j < i && k == rebased((#[trigger] taken@[j]).0@, from@, to@) {
                    let j = choose|j: int| 0 <= j < i && k == rebased((#[trigger] taken@[j]).0@, from@, to@);
                    assert(k == rebased(taken@[j].0@, from@, to@));
                }
                assert(before[k] == rest[k]);
            }
            i = i + 1;
        }
    }
    proof {
        let want = relocated(given, from@, to@);
        assert(rest == with_ancestors(without(given, from@), to@));
        assert forall|k: Seq<char>| lands_at(given, from@, to@, k) implies exists|j: int|
            0 <= j < count && k == rebased((#[trigger] taken@[j]).0@, from@, to@) by {
            lemma_rebased_back(k, to@, from@);
            let p = rebased(k, to@, from@);
            let j = choose|j: int| 0 <= j < count && (#[trigger] taken@[j]).0@ == p;
            assert(k == rebased(taken@[j].0@, from@, to@));
        }
        assert forall|k: Seq<char>|
            (exists|j: int| 0 <= j < count && k == rebased((#[trigger] taken@[j]).0@, from@, to@)) implies lands_at(
            given,
            from@,
            to@,
            k,
        ) && files@[k] == given[rebased(k, to@, from@)] by {
            let j = choose|j: int| 0 <= j < count && k == rebased((#[trigger] taken@[j]).0@, from@, to@);
            lemma_rebased_back(taken@[j].0@, from@, to@);
        }
        assert(files@ =~= want);
        assert(occupied(given, from@));
    }
}

} // verus!
