//! What normalized paths are like.

use vstd::prelude::*;

use crate::path::{
    at_or_beneath, filled, has_gap, is_ancestor, is_dots, leading_slashes, lemma_one_more_piece, lemma_pieces_len,
    normal_form, pieces, rebased, rooted, segments,
};

verus! {

/// `p[i + 1 .. j]` is one segment of `p`.
pub open spec fn is_segment(p: Seq<char>, i: int, j: int) -> bool {
    &&& 0 <= i < j <= p.len()
    &&& p[i] == '/'
    &&& j == p.len() || p[j] == '/'
    &&& forall|k: int| i < k < j ==> p[k] != '/'
}

/// `p` is an absolute path without empty segments and without `.` and `..`.
pub open spec fn is_normal(p: Seq<char>) -> bool {
    &&& p.len() >= 2
    &&& p[0] == '/'
    &&& p.last() != '/'
    &&& forall|i: int| #![trigger p[i]] 0 <= i < p.len() - 1 && p[i] == '/' ==> p[i + 1] != '/'
    &&& forall|i: int, j: int| #[trigger] is_segment(p, i, j) ==> !is_dots(p.subrange(i + 1, j))
}

/// A segment that can stand in a normalized path.
spec fn is_good(s: Seq<char>) -> bool {
    &&& s.len() > 0
    &&& !is_dots(s)
    &&& forall|i: int| 0 <= i < s.len() ==> s[i] != '/'
}

spec fn all_good(segs: Seq<Seq<char>>) -> bool {
    forall|i: int| 0 <= i < segs.len() ==> is_good(#[trigger] segs[i])
}

proof fn lemma_pieces_have_no_slash(s: Seq<char>, i: int, j: int)
    requires
        0 <= i < pieces(s).len(),
        0 <= j < pieces(s)[i].len(),
    ensures
        pieces(s)[i][j] != '/',
    decreases s.len(),
{
    if s.len() > 0 {
        let p = pieces(s.drop_last());
        lemma_pieces_len(s.drop_last());
        if s.last() == '/' {
            if i < p.len() {
                lemma_pieces_have_no_slash(s.drop_last(), i, j);
            }
        } else if i < p.len() - 1 || j < p.last().len() {
            lemma_pieces_have_no_slash(s.drop_last(), i, j);
        }
    }
}

proof fn lemma_segments_good(s: Seq<char>)
    requires
        normal_form(s) is Some,
    ensures
        all_good(segments(s)),
        segments(s).len() > 0,
{
    let full = |p: Seq<char>| p.len() > 0;
    let segs = segments(s);
    assert forall|i: int| 0 <= i < segs.len() implies is_good(#[trigger] segs[i]) by {
        pieces(s).lemma_filter_pred(full, i);
        let seg = segs[i];
        assert(pieces(s).filter(full).contains(seg));
        pieces(s).lemma_filter_contains_rev(full, seg);
        let x = choose|x: int| 0 <= x < pieces(s).len() && pieces(s)[x] == seg;
        assert forall|j: int| 0 <= j < seg.len() implies seg[j] != '/' by {
            lemma_pieces_have_no_slash(s, x, j);
        }
    }
}

proof fn lemma_rooted_is_normal(segs: Seq<Seq<char>>)
    requires
        all_good(segs),
        segs.len() > 0,
    ensures
        is_normal(rooted(segs)),
    decreases segs.len(),
{
    let init = segs.drop_last();
    let q = rooted(init);
    let seg = segs.last();
    let p = rooted(segs);
    let n = q.len() as int;
    assert(is_good(seg));
    assert(p =~= q.push('/') + seg);
    assert(p[n] == '/');
    assert forall|k: int| n < k < p.len() implies p[k] == seg[k - n - 1] by {}
    if init.len() == 0 {
        assert(q =~= Seq::empty());
    } else {
        assert(all_good(init)) by {
            assert forall|i: int| 0 <= i < init.len() implies is_good(#[trigger] init[i]) by {
                assert(init[i] == segs[i]);
            }
        }
        lemma_rooted_is_normal(init);
        assert forall|k: int| 0 <= k < n implies p[k] == q[k] by {}
    }
    assert(p.last() == seg.last());
    assert forall|i: int| #![trigger p[i]] 0 <= i < p.len() - 1 && p[i] == '/' implies p[i + 1] != '/' by {
        if i < n - 1 {
            assert(q[i] == '/');
            assert(p[i + 1] == q[i + 1]);
        } else if i == n - 1 {
            assert(p[i] == q.last());
        } else {
            assert(p[i + 1] == seg[i - n]);
        }
    }
    assert forall|i: int, j: int| #[trigger] is_segment(p, i, j) implies !is_dots(p.subrange(i + 1, j)) by {
        if j <= n {
            assert(is_segment(q, i, j));
            assert(p.subrange(i + 1, j) =~= q.subrange(i + 1, j));
        } else if i < n {
            assert(p[n] == '/');
            assert(false);
        } else {
            assert(i == n) by {
                if i > n {
                    assert(p[i] == seg[i - n - 1]);
                }
            }
            assert(j == p.len()) by {
                if j < p.len() {
                    assert(p[j] == seg[j - n - 1]);
                }
            }
            assert(p.subrange(i + 1, j) =~= seg);
        }
    }
}

/// What normalization gives is an absolute path without empty segments and
/// without `.` and `..`.
pub proof fn law_normal_form_is_normal(path: Seq<char>)
    ensures
        normal_form(path) matches Some(p) ==> is_normal(p),
{
    if normal_form(path) is Some {
        lemma_segments_good(path);
        lemma_rooted_is_normal(segments(path));
    }
}

proof fn lemma_pieces_append(s: Seq<char>, t: Seq<char>)
    requires
        forall|i: int| 0 <= i < t.len() ==> t[i] != '/',
    ensures
        pieces(s.push('/') + t) == pieces(s).push(t),
    decreases t.len(),
{
    let u = s.push('/') + t;
    if t.len() == 0 {
        assert(u =~= s.push('/'));
        assert(u.drop_last() =~= s);
        assert(t =~= Seq::empty());
    } else {
        let t0 = t.drop_last();
        lemma_pieces_append(s, t0);
        assert(u.drop_last() =~= s.push('/') + t0);
        let p = pieces(s).push(t0);
        assert(p.drop_last() =~= pieces(s));
        assert(t0.push(t.last()) =~= t);
        assert(u.last() == t.last());
    }
}

proof fn lemma_pieces_of_rooted(segs: Seq<Seq<char>>)
    requires
        all_good(segs),
    ensures
        pieces(rooted(segs)) == seq![Seq::<char>::empty()] + segs,
    decreases segs.len(),
{
    if segs.len() == 0 {
        assert(pieces(rooted(segs)) =~= seq![Seq::<char>::empty()] + segs);
    } else {
        let init = segs.drop_last();
        assert(all_good(init)) by {
            assert forall|i: int| 0 <= i < init.len() implies is_good(#[trigger] init[i]) by {
                assert(init[i] == segs[i]);
            }
        }
        lemma_pieces_of_rooted(init);
        assert(is_good(segs.last()));
        lemma_pieces_append(rooted(init), segs.last());
        assert((seq![Seq::<char>::empty()] + init).push(segs.last()) =~= seq![Seq::<char>::empty()] + segs);
    }
}

proof fn lemma_filled_push(read: Seq<Seq<char>>, piece: Seq<char>)
    requires
        piece.len() > 0,
    ensures
        filled(read.push(piece)) == filled(read).push(piece),
{
    reveal(Seq::filter);
    assert(read.push(piece).drop_last() =~= read);
}

proof fn lemma_filled_nothing()
    ensures
        filled(seq![Seq::<char>::empty()]) == Seq::<Seq<char>>::empty(),
{
    reveal_with_fuel(Seq::filter, 2);
    assert(seq![Seq::<char>::empty()].drop_last() =~= Seq::empty());
}

proof fn lemma_filled_append(read: Seq<Seq<char>>, segs: Seq<Seq<char>>)
    requires
        forall|i: int| 0 <= i < segs.len() ==> (#[trigger] segs[i]).len() > 0,
    ensures
        filled(read + segs) == filled(read) + segs,
    decreases segs.len(),
{
    if segs.len() == 0 {
        assert(read + segs == read);
        assert(filled(read) + segs == filled(read));
    } else {
        let init = segs.drop_last();
        let last = segs.last();
        assert(last.len() > 0);
        assert forall|i: int| 0 <= i < init.len() implies (#[trigger] init[i]).len() > 0 by {
            assert(init[i] == segs[i]);
        }
        lemma_filled_append(read, init);
        lemma_filled_push(read + init, last);
        assert((read + init).push(last) == read + segs);
        assert((filled(read) + init).push(last) == filled(read) + segs);
    }
}

/// Normalizing a path twice is normalizing it once.
pub proof fn law_normalizing_is_idempotent(path: Seq<char>)
    ensures
        normal_form(path) matches Some(p) ==> normal_form(p) == Some(p),
{
    if normal_form(path) is Some {
        let segs = segments(path);
        lemma_segments_good(path);
        lemma_pieces_of_rooted(segs);
        assert forall|i: int| 0 <= i < segs.len() implies (#[trigger] segs[i]).len() > 0 by {
            assert(is_good(segs[i]));
        }
        lemma_filled_nothing();
        lemma_filled_append(seq![Seq::<char>::empty()], segs);
        assert(Seq::<Seq<char>>::empty() + segs == segs);
        assert forall|i: int| 0 <= i < segs.len() implies !is_dots(#[trigger] segs[i]) by {
            assert(is_good(segs[i]));
        }
        let again = pieces(rooted(segs));
        assert(!has_gap(again)) by {
            assert forall|j: int| 1 <= j < again.len() implies (#[trigger] again[j]).len() > 0 by {
                assert(again[j] == segs[j - 1]);
            }
        }
    }
}

/// A path with an empty segment between two others has no normalized form.
pub proof fn law_empty_segments_are_rejected(path: Seq<char>, i: int, j: int, k: int)
    requires
        0 <= i < j < k < pieces(path).len(),
        pieces(path)[i].len() > 0,
        pieces(path)[j].len() == 0,
        pieces(path)[k].len() > 0,
    ensures
        normal_form(path) is None,
{
}

/// The directories on the way to a normalized path are its proper beginnings
/// that end before a slash.
pub(crate) proof fn lemma_ancestors_of_normal(q: Seq<char>, p: Seq<char>)
    requires
        is_normal(p),
    ensures
        is_ancestor(q, p) <==> exists|j: int| 2 <= j < p.len() && #[trigger] p[j] == '/' && q == p.take(j),
{
    let t = p.skip(1);
    let rest = p.drop_first();
    assert(rest =~= t);
    assert(p[1] != '/');
    assert(rest[0] == p[1]);
    assert(leading_slashes(p) == 1) by {
        reveal_with_fuel(leading_slashes, 2);
    }
    if is_ancestor(q, p) {
        let i = choose|i: int| 0 <= i < t.len() && #[trigger] t[i] == '/' && q == seq!['/'] + t.take(i);
        assert(p[i + 1] == '/');
        assert(i != 0);
        assert(q =~= p.take(i + 1));
    }
    if exists|j: int| 2 <= j < p.len() && #[trigger] p[j] == '/' && q == p.take(j) {
        let j = choose|j: int| 2 <= j < p.len() && #[trigger] p[j] == '/' && q == p.take(j);
        assert(t[j - 1] == '/');
        assert(q =~= seq!['/'] + t.take(j - 1));
    }
}

/// A directory on the way to a normalized path is a normalized path.
pub(crate) proof fn lemma_ancestor_is_normal(q: Seq<char>, p: Seq<char>)
    requires
        is_normal(p),
        is_ancestor(q, p),
    ensures
        is_normal(q),
        q.len() < p.len(),
        at_or_beneath(p, q),
{
    lemma_ancestors_of_normal(q, p);
    let j = choose|j: int| 2 <= j < p.len() && #[trigger] p[j] == '/' && q == p.take(j);
    assert forall|k: int| 0 <= k < j implies q[k] == p[k] by {}
    assert(q.last() != '/') by {
        assert(q.last() == p[j - 1]);
        if p[j - 1] == '/' {
            assert(p[j - 1 + 1] != '/');
        }
    }
    assert forall|i: int, e: int| #[trigger] is_segment(q, i, e) implies !is_dots(q.subrange(i + 1, e)) by {
        assert(is_segment(p, i, e));
        assert(q.subrange(i + 1, e) =~= p.subrange(i + 1, e));
    }
    assert(q.push('/') =~= p.subrange(0, j + 1));
}

/// A directory on the way to a directory on the way to `p` is on the way to `p`.
pub(crate) proof fn lemma_ancestor_transitive(r: Seq<char>, q: Seq<char>, p: Seq<char>)
    requires
        is_normal(p),
        is_ancestor(q, p),
        is_ancestor(r, q),
    ensures
        is_ancestor(r, p),
{
    lemma_ancestor_is_normal(q, p);
    lemma_ancestors_of_normal(q, p);
    lemma_ancestors_of_normal(r, q);
    lemma_ancestors_of_normal(r, p);
    let j = choose|j: int| 2 <= j < p.len() && #[trigger] p[j] == '/' && q == p.take(j);
    let i = choose|i: int| 2 <= i < q.len() && #[trigger] q[i] == '/' && r == q.take(i);
    assert(p[i] == '/');
    assert(r =~= p.take(i));
}

/// Where `dir` is a proper beginning of the normalized path `p` on the way to
/// it, it is one of the directories on the way.
pub(crate) proof fn lemma_beneath_is_ancestor(p: Seq<char>, dir: Seq<char>)
    requires
        is_normal(p),
        is_normal(dir),
        at_or_beneath(p, dir),
        p != dir,
    ensures
        is_ancestor(dir, p),
{
    let d = dir.push('/');
    let n = dir.len() as int;
    assert(d =~= p.subrange(0, n + 1));
    assert(p[n] == d[n]);
    assert(dir =~= p.take(n)) by {
        assert forall|k: int| 0 <= k < n implies dir[k] == p[k] by {
            assert(d[k] == p.subrange(0, n + 1)[k]);
        }
    }
    lemma_ancestors_of_normal(dir, p);
}

/// A normalized path that moves along with a directory stays normalized.
pub(crate) proof fn lemma_rebased_is_normal(k: Seq<char>, from: Seq<char>, to: Seq<char>)
    requires
        is_normal(k),
        is_normal(from),
        is_normal(to),
        at_or_beneath(k, from),
    ensures
        is_normal(rebased(k, from, to)),
{
    let r = rebased(k, from, to);
    let f = from.len() as int;
    let t = to.len() as int;
    if k == from {
        assert(k.skip(f) =~= Seq::empty());
        assert(r =~= to);
    } else {
        let d = from.push('/');
        assert(d =~= k.subrange(0, f + 1));
        assert(k[f] == d[f]);
        assert(r[t] == '/');
        assert forall|i: int| 0 <= i < t implies r[i] == to[i] by {}
        assert forall|i: int| t <= i < r.len() implies r[i] == k[i - t + f] by {}
        assert(r.last() == k.last());
        assert forall|i: int| #![trigger r[i]] 0 <= i < r.len() - 1 && r[i] == '/' implies r[i + 1] != '/' by {
            if i < t - 1 {
                assert(to[i] == '/');
                assert(r[i + 1] == to[i + 1]);
            } else if i == t - 1 {
                assert(r[i] == to.last());
            } else {
                let x = i - t + f;
                assert(k[x] == '/');
                assert(r[i + 1] == k[x + 1]);
            }
        }
        assert forall|i: int, j: int| #[trigger] is_segment(r, i, j) implies !is_dots(r.subrange(i + 1, j)) by {
            if j <= t {
                assert(is_segment(to, i, j));
                assert(r.subrange(i + 1, j) =~= to.subrange(i + 1, j));
            } else if i < t {
                assert(r[t] != '/');
            } else {
                let x = i - t + f;
                let y = j - t + f;
                assert forall|m: int| x < m < y implies k[m] != '/' by {
                    assert(r[m - f + t] != '/');
                }
                assert(is_segment(k, x, y));
                assert(r.subrange(i + 1, j) =~= k.subrange(x + 1, y));
            }
        }
    }
}

// --- what has which normalized form --------------------------------------------------

/// The path `/a/b` through the segments `a` and `b`.
pub open spec fn through(segs: Seq<Seq<char>>) -> Seq<char> {
    segs.fold_left(Seq::<char>::empty(), |p: Seq<char>, s: Seq<char>| p + seq!['/'] + s)
}

proof fn lemma_through(segs: Seq<Seq<char>>)
    ensures
        through(segs) == rooted(segs),
    decreases segs.len(),
{
    reveal(Seq::fold_left);
    if segs.len() > 0 {
        lemma_through(segs.drop_last());
        assert(rooted(segs.drop_last()) + seq!['/'] =~= rooted(segs.drop_last()).push('/'));
    }
}

/// A path through segments that are not empty, hold no slash and are neither `.` nor
/// `..` is its own normalized form.
pub proof fn law_good_segments_make_a_path(segs: Seq<Seq<char>>)
    requires
        segs.len() > 0,
        forall|i: int|
            0 <= i < segs.len() ==> (#[trigger] segs[i]).len() > 0 && !segs[i].contains('/') && segs[i] != seq!['.']
                && segs[i] != seq!['.', '.'],
    ensures
        normal_form(through(segs)) == Some(through(segs)),
{
    lemma_through(segs);
    assert(all_good(segs)) by {
        assert forall|i: int| 0 <= i < segs.len() implies is_good(#[trigger] segs[i]) by {
            assert forall|j: int| 0 <= j < segs[i].len() implies segs[i][j] != '/' by {
                assert(segs[i].contains(segs[i][j]));
            }
        }
    }
    lemma_pieces_of_rooted(segs);
    lemma_filled_nothing();
    lemma_filled_append(seq![Seq::<char>::empty()], segs);
    assert(Seq::<Seq<char>>::empty() + segs == segs);
    let again = pieces(rooted(segs));
    assert(!has_gap(again)) by {
        assert forall|j: int| 1 <= j < again.len() implies (#[trigger] again[j]).len() > 0 by {
            assert(again[j] == segs[j - 1]);
            assert(is_good(segs[j - 1]));
        }
    }
    assert forall|i: int| 0 <= i < segs.len() implies !is_dots(#[trigger] segs[i]) by {
        assert(is_good(segs[i]));
    }
}

proof fn lemma_pieces_joined(x: Seq<char>, y: Seq<char>)
    ensures
        pieces(x.push('/') + y) == pieces(x) + pieces(y),
    decreases y.len(),
{
    lemma_pieces_len(x);
    lemma_pieces_len(y);
    let all = x.push('/') + y;
    if y.len() == 0 {
        assert(all =~= x.push('/'));
        assert(all.drop_last() =~= x);
        assert(pieces(x).push(Seq::empty()) =~= pieces(x) + pieces(y));
    } else {
        let init = y.drop_last();
        lemma_pieces_joined(x, init);
        lemma_pieces_len(init);
        assert(all.drop_last() =~= x.push('/') + init);
        assert(all.last() == y.last());
        let p = pieces(x) + pieces(init);
        if y.last() == '/' {
            assert(p.push(Seq::empty()) =~= pieces(x) + pieces(init).push(Seq::empty()));
        } else {
            assert(p.last() == pieces(init).last());
            assert(p.drop_last() =~= pieces(x) + pieces(init).drop_last());
            assert(p.drop_last().push(p.last().push(y.last())) =~= pieces(x) + pieces(init).drop_last().push(
                pieces(init).last().push(y.last()),
            ));
        }
    }
}

/// Slashes in front of a path and behind it say nothing.
pub proof fn law_slashes_around_say_nothing(path: Seq<char>)
    ensures
        normal_form(path.push('/')) == normal_form(path),
        normal_form(seq!['/'] + path) == normal_form(path),
{
    let none = Seq::<char>::empty();
    let ps = pieces(path);
    reveal(Seq::filter);
    assert(path.push('/').drop_last() =~= path);
    assert(pieces(path.push('/')) == ps.push(none));
    lemma_one_more_piece(ps, none);
    assert(ps.push(none).drop_last() =~= ps);
    assert(filled(ps.push(none)) == filled(ps));
    lemma_pieces_joined(none, path);
    assert(none.push('/') + path =~= seq!['/'] + path);
    assert(pieces(none) =~= seq![none]);
    let front = seq![none] + ps;
    assert(pieces(seq!['/'] + path) == front);
    lemma_filled_behind_nothing(ps);
    assert(has_gap(front) == has_gap(ps)) by {
        if has_gap(ps) {
            let (i, j, k) = choose|i: int, j: int, k: int|
                0 <= i < j < k < ps.len() && (#[trigger] ps[i]).len() > 0 && (#[trigger] ps[j]).len() == 0 && (
                #[trigger] ps[k]).len() > 0;
            assert(front[i + 1] == ps[i] && front[j + 1] == ps[j] && front[k + 1] == ps[k]);
        }
        if has_gap(front) {
            let (i, j, k) = choose|i: int, j: int, k: int|
                0 <= i < j < k < front.len() && (#[trigger] front[i]).len() > 0 && (#[trigger] front[j]).len() == 0 && (
                #[trigger] front[k]).len() > 0;
            assert(i >= 1);
            assert(front[i] == ps[i - 1] && front[j] == ps[j - 1] && front[k] == ps[k - 1]);
        }
    }
}

proof fn lemma_filled_behind_nothing(ps: Seq<Seq<char>>)
    ensures
        filled(seq![Seq::<char>::empty()] + ps) == filled(ps),
    decreases ps.len(),
{
    let none = seq![Seq::<char>::empty()];
    reveal(Seq::filter);
    if ps.len() == 0 {
        lemma_filled_nothing();
        assert(none + ps =~= none);
    } else {
        lemma_filled_behind_nothing(ps.drop_last());
        assert((none + ps).drop_last() =~= none + ps.drop_last());
        assert((none + ps).last() == ps.last());
    }
}

proof fn lemma_some_piece(s: Seq<char>, at: int) -> (i: int)
    requires
        0 <= at < s.len(),
        s[at] != '/',
    ensures
        0 <= i < pieces(s).len(),
        pieces(s)[i].len() > 0,
    decreases s.len(),
{
    lemma_pieces_len(s);
    let init = s.drop_last();
    lemma_pieces_len(init);
    let p = pieces(init);
    if at == s.len() - 1 {
        p.len() - 1
    } else {
        let i = lemma_some_piece(init, at);
        assert(s.last() != '/' ==> pieces(s)[i].len() >= p[i].len());
        i
    }
}

/// A path with two slashes in a row between characters that are none has no normalized
/// form.
pub proof fn law_two_slashes_inside_are_rejected(a: Seq<char>, b: Seq<char>, i: int, j: int)
    requires
        0 <= i < a.len() && a[i] != '/',
        0 <= j < b.len() && b[j] != '/',
    ensures
        normal_form(a + seq!['/', '/'] + b) is None,
{
    let none = Seq::<char>::empty();
    let tail = none.push('/') + b;
    lemma_pieces_joined(none, b);
    lemma_pieces_joined(a, tail);
    assert(pieces(none) =~= seq![none]);
    assert(a.push('/') + tail =~= a + seq!['/', '/'] + b);
    let x = lemma_some_piece(a, i);
    let y = lemma_some_piece(b, j);
    let ps = pieces(a) + (seq![none] + pieces(b));
    let m = pieces(a).len() as int;
    assert(ps[x] == pieces(a)[x]);
    assert(ps[m] == none);
    assert(ps[m + 1 + y] == pieces(b)[y]);
    assert(has_gap(ps));
}

/// A path with a segment `.` or `..` has no normalized form, wherever the segment
/// stands.
pub proof fn law_dots_are_rejected(a: Seq<char>, dots: Seq<char>, b: Seq<char>)
    requires
        dots == seq!['.'] || dots == seq!['.', '.'],
    ensures
        normal_form(dots) is None,
        normal_form(a.push('/') + dots) is None,
        normal_form(dots.push('/') + b) is None,
        normal_form(a.push('/') + dots.push('/') + b) is None,
{
    let none = Seq::<char>::empty();
    assert(pieces(dots) =~= seq![dots]) by {
        assert forall|i: int| 0 <= i < dots.len() implies dots[i] != '/' by {}
        lemma_pieces_append(none, dots);
        lemma_pieces_joined(none, dots);
        assert(pieces(none) =~= seq![none]);
        assert((pieces(none) + pieces(dots))[1] == pieces(none).push(dots)[1]);
        assert((pieces(none) + pieces(dots)).len() == 2);
        assert(pieces(dots)[0] == dots);
    }
    lemma_piece_of_dots(dots, 0);
    lemma_pieces_joined(a, dots);
    lemma_pieces_len(a);
    assert((pieces(a) + pieces(dots))[pieces(a).len() as int] == dots);
    lemma_piece_of_dots(a.push('/') + dots, pieces(a).len() as int);
    lemma_pieces_joined(dots, b);
    assert((pieces(dots) + pieces(b))[0] == dots);
    lemma_piece_of_dots(dots.push('/') + b, 0);
    lemma_pieces_joined(a, dots.push('/') + b);
    assert(a.push('/') + (dots.push('/') + b) =~= a.push('/') + dots.push('/') + b);
    assert((pieces(a) + (pieces(dots) + pieces(b)))[pieces(a).len() as int] == dots);
    lemma_piece_of_dots(a.push('/') + dots.push('/') + b, pieces(a).len() as int);
}

proof fn lemma_piece_of_dots(path: Seq<char>, i: int)
    requires
        0 <= i < pieces(path).len(),
        is_dots(pieces(path)[i]),
    ensures
        normal_form(path) is None,
{
    let full = |p: Seq<char>| p.len() > 0;
    let segs = segments(path);
    pieces(path).lemma_filter_contains(full, i);
    assert(pieces(path).filter(full) == segs);
    let x = choose|x: int| 0 <= x < segs.len() && segs[x] == pieces(path)[i];
    assert(is_dots(segs[x]));
}

/// No characters are no path.
pub proof fn law_nothing_is_no_path()
    ensures
        normal_form(Seq::empty()) is None,
{
    lemma_filled_nothing();
    assert(pieces(Seq::<char>::empty()) =~= seq![Seq::<char>::empty()]);
}

/// A path lies beneath another if and only if it goes on from it with a slash.
pub proof fn law_beneath_is_behind_a_slash(dir: Seq<char>, rest: Seq<char>, p: Seq<char>)
    ensures
        at_or_beneath(dir, dir),
        at_or_beneath(dir + seq!['/'] + rest, dir),
        at_or_beneath(p, dir) && p != dir ==> p == dir + seq!['/'] + p.skip(dir.len() + 1int),
{
    let k = dir + seq!['/'] + rest;
    assert(dir.push('/') =~= k.subrange(0, dir.len() + 1int));
    if at_or_beneath(p, dir) && p != dir {
        assert(dir.push('/') =~= p.subrange(0, dir.len() + 1int));
        assert(p =~= dir + seq!['/'] + p.skip(dir.len() + 1int)) by {
            assert forall|i: int| 0 <= i < dir.len() + 1 implies p[i] == dir.push('/')[i] by {
                assert(p.subrange(0, dir.len() + 1int)[i] == p[i]);
            }
        }
    }
}

/// The directories on the way to a normalized path are those that it lies beneath.
pub proof fn law_ancestors_are_what_it_lies_beneath(q: Seq<char>, p: Seq<char>)
    requires
        is_normal(p),
    ensures
        is_ancestor(q, p) <==> q.len() > 0 && q != p && at_or_beneath(p, q),
{
    lemma_ancestors_of_normal(q, p);
    if is_ancestor(q, p) {
        lemma_ancestor_is_normal(q, p);
    }
    if q.len() > 0 && q != p && at_or_beneath(p, q) {
        let j = q.len() as int;
        law_beneath_is_behind_a_slash(q, Seq::empty(), p);
        assert(p[j] == '/');
        assert(q =~= p.take(j));
        if j == 1 {
            assert(p[0] == '/' && p[1] == '/');
            assert(p[0int + 1] != '/');
        }
    }
}

} // verus!
