//! Paths of the virtual filesystem, in the form `/a/b`.

use vstd::prelude::*;

use crate::text::{chars_of, same_text, text_of};

verus! {

/// The pieces of a path between its slashes, empty pieces among them.
pub open spec fn pieces(s: Seq<char>) -> Seq<Seq<char>>
    decreases s.len(),
{
    if s.len() == 0 {
        seq![Seq::<char>::empty()]
    } else {
        let p = pieces(s.drop_last());
        if s.last() == '/' {
            p.push(Seq::empty())
        } else {
            p.drop_last().push(p.last().push(s.last()))
        }
    }
}

/// The segments of a path: its pieces that are not empty.
pub open spec fn segments(s: Seq<char>) -> Seq<Seq<char>> {
    filled(pieces(s))
}

/// The pieces that are not empty.
pub open spec fn filled(pieces: Seq<Seq<char>>) -> Seq<Seq<char>> {
    pieces.filter(|p: Seq<char>| p.len() > 0)
}

/// A segment that would step through the tree instead of naming a node in it.
pub open spec fn is_dots(segment: Seq<char>) -> bool {
    segment == seq!['.'] || segment == seq!['.', '.']
}

/// The absolute path that goes through `segs`.
pub open spec fn rooted(segs: Seq<Seq<char>>) -> Seq<char>
    decreases segs.len(),
{
    if segs.len() == 0 {
        Seq::empty()
    } else {
        rooted(segs.drop_last()).push('/') + segs.last()
    }
}

/// A piece that is empty stands behind a segment.
pub open spec fn has_opening(pieces: Seq<Seq<char>>) -> bool {
    exists|i: int, j: int|
        0 <= i < j < pieces.len() && (#[trigger] pieces[i]).len() > 0 && (#[trigger] pieces[j]).len() == 0
}

/// A piece that is empty stands between two segments.
pub open spec fn has_gap(pieces: Seq<Seq<char>>) -> bool {
    exists|i: int, j: int, k: int|
        0 <= i < j < k < pieces.len() && (#[trigger] pieces[i]).len() > 0 && (#[trigger] pieces[j]).len() == 0 && (
        #[trigger] pieces[k]).len() > 0
}

/// The form `/a/b` of a path; nothing for a path without segments, for one with
/// an empty segment between two others and for one with a segment `.` or `..`.
/// Slashes before the first segment and behind the last say nothing.
pub open spec fn normal_form(path: Seq<char>) -> Option<Seq<char>> {
    let segs = segments(path);
    if segs.len() == 0 || has_gap(pieces(path)) || exists|i: int|
        0 <= i < segs.len() && is_dots(#[trigger] segs[i]) {
        None
    } else {
        Some(rooted(segs))
    }
}

/// `p` is `dir` itself or lies beneath it.
pub open spec fn at_or_beneath(p: Seq<char>, dir: Seq<char>) -> bool {
    p == dir || dir.push('/').is_prefix_of(p)
}

/// The path of `p` after `from` has become `to`.
pub open spec fn rebased(p: Seq<char>, from: Seq<char>, to: Seq<char>) -> Seq<char> {
    to + p.skip(from.len() as int)
}

/// How many slashes a path starts with.
pub open spec fn leading_slashes(path: Seq<char>) -> nat
    decreases path.len(),
{
    if path.len() > 0 && path[0] == '/' {
        1 + leading_slashes(path.drop_first())
    } else {
        0
    }
}

/// `q` is a directory on the way from the root to `path`.
pub open spec fn is_ancestor(q: Seq<char>, path: Seq<char>) -> bool {
    let t = path.skip(leading_slashes(path) as int);
    exists|i: int| 0 <= i < t.len() && #[trigger] t[i] == '/' && q == seq!['/'] + t.take(i)
}

pub(crate) proof fn lemma_leading_slashes(path: Seq<char>)
    ensures
        leading_slashes(path) <= path.len(),
        forall|i: int| 0 <= i < leading_slashes(path) ==> path[i] == '/',
        leading_slashes(path) < path.len() ==> path[leading_slashes(path) as int] != '/',
    decreases path.len(),
{
    if path.len() > 0 && path[0] == '/' {
        let rest = path.drop_first();
        lemma_leading_slashes(rest);
        assert forall|i: int| 0 <= i < leading_slashes(path) implies path[i] == '/' by {
            if i > 0 {
                assert(rest[i - 1] == '/');
            }
        }
        if leading_slashes(path) < path.len() {
            assert(rest[leading_slashes(rest) as int] == path[leading_slashes(path) as int]);
        }
    }
}

pub(crate) proof fn lemma_pieces_len(s: Seq<char>)
    ensures
        pieces(s).len() >= 1,
    decreases s.len(),
{
    if s.len() > 0 {
        lemma_pieces_len(s.drop_last());
    }
}

pub(crate) proof fn lemma_any_segment(read: Seq<Seq<char>>)
    ensures
        filled(read).len() > 0 <==> exists|i: int| 0 <= i < read.len() && (#[trigger] read[i]).len() > 0,
    decreases read.len(),
{
    reveal(Seq::filter);
    if read.len() > 0 {
        let init = read.drop_last();
        lemma_any_segment(init);
        if read.last().len() > 0 {
            assert(read[read.len() - 1].len() > 0);
            assert(filled(read) == filled(init).push(read.last()));
        } else {
            assert(filled(read) == filled(init));
            if exists|i: int| 0 <= i < init.len() && (#[trigger] init[i]).len() > 0 {
                let i = choose|i: int| 0 <= i < init.len() && (#[trigger] init[i]).len() > 0;
                assert(read[i].len() > 0);
            }
            if exists|i: int| 0 <= i < read.len() && (#[trigger] read[i]).len() > 0 {
                let i = choose|i: int| 0 <= i < read.len() && (#[trigger] read[i]).len() > 0;
                assert(init[i].len() > 0);
            }
        }
    }
}

pub(crate) proof fn lemma_one_more_piece(read: Seq<Seq<char>>, piece: Seq<char>)
    ensures
        has_opening(read.push(piece)) <==> has_opening(read) || (piece.len() == 0 && filled(read).len() > 0),
        has_gap(read.push(piece)) <==> has_gap(read) || (piece.len() > 0 && has_opening(read)),
{
    let all = read.push(piece);
    let n = read.len() as int;
    lemma_any_segment(read);
    assert(all[n] == piece);
    assert forall|i: int| 0 <= i < n implies #[trigger] all[i] == read[i] by {}
    if has_opening(read) {
        let (i, j) = choose|i: int, j: int|
            0 <= i < j < read.len() && (#[trigger] read[i]).len() > 0 && (#[trigger] read[j]).len() == 0;
        assert(all[i].len() > 0 && all[j].len() == 0);
        if piece.len() > 0 {
            assert(all[i].len() > 0 && all[j].len() == 0 && all[n].len() > 0);
        }
    }
    if has_gap(read) {
        let (i, j, k) = choose|i: int, j: int, k: int|
            0 <= i < j < k < read.len() && (#[trigger] read[i]).len() > 0 && (#[trigger] read[j]).len() == 0 && (
            #[trigger] read[k]).len() > 0;
        assert(all[i].len() > 0 && all[j].len() == 0 && all[k].len() > 0);
    }
    if piece.len() == 0 && filled(read).len() > 0 {
        let i = choose|i: int| 0 <= i < read.len() && (#[trigger] read[i]).len() > 0;
        assert(all[i].len() > 0 && all[n].len() == 0);
    }
    if has_opening(all) && !has_opening(read) {
        let (i, j) = choose|i: int, j: int|
            0 <= i < j < all.len() && (#[trigger] all[i]).len() > 0 && (#[trigger] all[j]).len() == 0;
        assert(read[i].len() > 0);
        if j < n {
            assert(read[j].len() == 0);
        }
    }
    if has_gap(all) && !has_gap(read) {
        let (i, j, k) = choose|i: int, j: int, k: int|
            0 <= i < j < k < all.len() && (#[trigger] all[i]).len() > 0 && (#[trigger] all[j]).len() == 0 && (
            #[trigger] all[k]).len() > 0;
        assert(read[i].len() > 0 && read[j].len() == 0);
        if k < n {
            assert(read[k].len() > 0);
        }
    }
}

/// What has been read of a path: the absolute path through the segments so far,
/// whether there was a segment, whether one of them was `.` or `..`, whether an
/// empty piece came behind one, and whether one came between two.
struct Progress {
    out: String,
    any: bool,
    dots: bool,
    opening: bool,
    gap: bool,
}

impl Progress {
    spec fn stands_for(self, read: Seq<Seq<char>>) -> bool {
        let segs = filled(read);
        &&& self.out@ == rooted(segs)
        &&& self.any == (segs.len() > 0)
        &&& self.dots == exists|k: int| 0 <= k < segs.len() && is_dots(#[trigger] segs[k])
        &&& self.opening == has_opening(read)
        &&& self.gap == has_gap(read)
    }

    /// Takes in the piece `chars[from..to]`.
    fn end_piece(&mut self, chars: &Vec<char>, from: usize, to: usize)
        requires
            from <= to <= chars@.len(),
        ensures
            forall|read: Seq<Seq<char>>| #[trigger]
                old(self).stands_for(read) ==> final(self).stands_for(
                    read.push(chars@.subrange(from as int, to as int)),
                ),
    {
        let ghost piece = chars@.subrange(from as int, to as int);
        if from < to {
            let segment = text_of(chars, from, to);
            if same_text(segment.as_str(), ".") || same_text(segment.as_str(), "..") {
                self.dots = true;
            }
            self.out.push('/');
            self.out.push_str(segment.as_str());
            self.any = true;
            if self.opening {
                self.gap = true;
            }
            proof {
                reveal_strlit(".");
                reveal_strlit("..");
                assert("."@ =~= seq!['.']);
                assert(".."@ =~= seq!['.', '.']);
            }
        } else if self.any {
            self.opening = true;
        }
        proof {
            assert forall|read: Seq<Seq<char>>| #[trigger] old(self).stands_for(read) implies self.stands_for(
                read.push(piece),
            ) by {
                lemma_one_more_piece(read, piece);
                let before = filled(read);
                let after = filled(read.push(piece));
                reveal(Seq::filter);
                assert(read.push(piece).drop_last() =~= read);
                if from < to {
                    assert(after == before.push(piece));
                    assert(after.drop_last() =~= before);
                    assert(after[before.len() as int] == piece);
                    assert forall|k: int| 0 <= k < before.len() implies after[k] == before[k] by {}
                    if old(self).dots {
                        let k = choose|k: int| 0 <= k < before.len() && is_dots(#[trigger] before[k]);
                        assert(is_dots(after[k]));
                    }
                } else {
                    assert(after == before);
                }
            }
        }
    }
}

/// Normalizes to the form `/a/b`; rejects traversal and empty segments, and paths
/// without segments.
pub fn normalize_path(path: &str) -> (r: Option<String>)
    ensures
        r is Some <==> normal_form(path@) is Some,
        r matches Some(p) ==> normal_form(path@) == Some(p@),
{
    let chars = chars_of(path);
    let n = chars.len();
    let mut progress = Progress { out: String::new(), any: false, dots: false, opening: false, gap: false };
    let mut start: usize = 0;
    let mut i: usize = 0;
    proof {
        assert(path@.take(0) =~= Seq::<char>::empty());
        assert(pieces(path@.take(0)).drop_last() =~= Seq::<Seq<char>>::empty());
        assert(pieces(path@.take(0)).last() =~= chars@.subrange(0, 0));
        reveal(Seq::filter);
    }
    while i < n
        invariant
            chars@ == path@,
            n == chars@.len(),
            start <= i <= n,
            pieces(path@.take(i as int)).last() == chars@.subrange(start as int, i as int),
            progress.stands_for(pieces(path@.take(i as int)).drop_last()),
        decreases n - i,
    {
        let ghost p = pieces(path@.take(i as int));
        proof {
            lemma_pieces_len(path@.take(i as int));
            assert(p.drop_last().push(p.last()) =~= p);
            assert(path@.take(i + 1).drop_last() =~= path@.take(i as int));
        }
        if chars[i] == '/' {
            progress.end_piece(&chars, start, i);
            proof {
                assert(p.push(Seq::empty()).drop_last() =~= p);
                assert(chars@.subrange(i + 1, i + 1) =~= Seq::<char>::empty());
            }
            start = i + 1;
        } else {
            proof {
                assert(chars@.subrange(start as int, i + 1) =~= chars@.subrange(start as int, i as int).push(
                    chars@[i as int],
                ));
                let q = p.drop_last().push(p.last().push(chars@[i as int]));
                assert(q.drop_last() =~= p.drop_last());
            }
        }
        i = i + 1;
    }
    proof {
        assert(path@.take(n as int) =~= path@);
        lemma_pieces_len(path@);
        assert(pieces(path@).drop_last().push(pieces(path@).last()) =~= pieces(path@));
    }
    progress.end_piece(&chars, start, n);
    if progress.any && !progress.gap && !progress.dots {
        Some(progress.out)
    } else {
        None
    }
}

/// Whether `p` is `dir` itself or lies beneath it.
pub fn is_at_or_beneath(p: &str, dir: &str) -> (r: bool)
    ensures
        r == at_or_beneath(p@, dir@),
{
    let x = chars_of(p);
    let y = chars_of(dir);
    if x.len() < y.len() {
        return false;
    }
    let mut i: usize = 0;
    while i < y.len()
        invariant
            x@ == p@,
            y@ == dir@,
            i <= y@.len() <= x@.len(),
            forall|j: int| 0 <= j < i ==> x@[j] == y@[j],
        decreases y@.len() - i,
    {
        if x[i] != y[i] {
            proof {
                let d = dir@.push('/');
                if d.is_prefix_of(p@) {
                    assert(d[i as int] == p@[i as int]);
                }
            }
            return false;
        }
        i = i + 1;
    }
    if x.len() == y.len() {
        assert(p@ =~= dir@);
        return true;
    }
    proof {
        let d = dir@.push('/');
        if p@[i as int] == '/' {
            assert(d =~= p@.subrange(0, d.len() as int));
        } else if d.is_prefix_of(p@) {
            assert(d[i as int] == p@[i as int]);
        }
    }
    x[i] == '/'
}

/// The path of `p` after `from` has become `to`.
pub fn rebase(p: &str, from: &str, to: &str) -> (r: String)
    requires
        at_or_beneath(p@, from@),
    ensures
        r@ == rebased(p@, from@, to@),
{
    let x = chars_of(p);
    let y = chars_of(from);
    proof {
        if p@ != from@ {
            assert(from@.push('/').len() <= p@.len());
        }
    }
    let mut r = to.to_owned();
    let suffix = text_of(&x, y.len(), x.len());
    r.push_str(suffix.as_str());
    assert(suffix@ =~= p@.skip(from@.len() as int));
    r
}

/// Moving a path along with its directory can be undone.
pub proof fn lemma_rebased_back(p: Seq<char>, from: Seq<char>, to: Seq<char>)
    requires
        at_or_beneath(p, from),
    ensures
        at_or_beneath(rebased(p, from, to), to),
        rebased(rebased(p, from, to), to, from) == p,
{
    let q = rebased(p, from, to);
    let n = from.len() as int;
    let suffix = p.skip(n);
    if p == from {
        assert(suffix =~= Seq::empty());
        assert(q =~= to);
        assert(q.skip(to.len() as int) =~= Seq::empty());
        assert(rebased(q, to, from) =~= p);
    } else {
        let d = from.push('/');
        assert(d =~= p.subrange(0, d.len() as int));
        assert(p[n] == d[n]);
        assert(suffix[0] == '/');
        assert(to.push('/') =~= q.subrange(0, to.len() as int + 1));
        assert(q.skip(to.len() as int) =~= suffix);
        assert(forall|j: int| 0 <= j < n ==> #[trigger] p[j] == d[j]);
        assert(rebased(q, to, from) =~= p);
    }
}

} // verus!
