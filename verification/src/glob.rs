//! The path glob language of the allow rules.
//!
//! A path is read as its segments: the non-empty runs of characters between
//! `/` separators. A pattern segment `**` matches any number of path segments;
//! any other pattern segment matches exactly one path segment, with `*` in it
//! standing for any run of characters (possibly empty) inside that segment.
use vstd::prelude::*;

use crate::text::chars_of;

verus! {

/// Wildcard match of one segment: `*` matches any run of characters
/// (including the empty one), every other character matches itself.
pub open spec fn wildcard_match(pattern: Seq<char>, text: Seq<char>) -> bool
    decreases pattern.len() + text.len(),
{
    if pattern.len() == 0 {
        text.len() == 0
    } else if pattern[0] == '*' {
        wildcard_match(pattern.drop_first(), text) || (text.len() > 0 && wildcard_match(
            pattern,
            text.drop_first(),
        ))
    } else {
        text.len() > 0 && pattern[0] == text[0] && wildcard_match(
            pattern.drop_first(),
            text.drop_first(),
        )
    }
}

/// `wildcard_match` of the suffixes of `p` and `t` that start at `i` and `j`.
pub open spec fn suffix_match(p: Seq<char>, t: Seq<char>, i: int, j: int) -> bool {
    wildcard_match(p.skip(i), t.skip(j))
}

/// No `*` among `p[lo..hi]`.
pub open spec fn star_free(p: Seq<char>, lo: int, hi: int) -> bool {
    forall|k: int| lo <= k < hi ==> p[k] != '*'
}

/// `p[a..a+n]` and `t[b..b+n]` hold the same characters.
pub open spec fn same_run(p: Seq<char>, a: int, t: Seq<char>, b: int, n: int) -> bool {
    p.subrange(a, a + n) == t.subrange(b, b + n)
}

/// One step of `wildcard_match`, read at positions `i` and `j`.
proof fn lemma_unfold(p: Seq<char>, t: Seq<char>, i: int, j: int)
    requires
        0 <= i <= p.len(),
        0 <= j <= t.len(),
    ensures
        suffix_match(p, t, i, j) == if i == p.len() {
            j == t.len()
        } else if p[i] == '*' {
            suffix_match(p, t, i + 1, j) || (j < t.len() && suffix_match(p, t, i, j + 1))
        } else {
            j < t.len() && p[i] == t[j] && suffix_match(p, t, i + 1, j + 1)
        },
{
    if i < p.len() {
        assert(p.skip(i).drop_first() =~= p.skip(i + 1));
        assert(p.skip(i)[0] == p[i]);
    }
    if j < t.len() {
        assert(t.skip(j).drop_first() =~= t.skip(j + 1));
        assert(t.skip(j)[0] == t[j]);
    }
    assert(p.skip(i).len() == p.len() - i);
    assert(t.skip(j).len() == t.len() - j);
}

/// A `*` at `i` that matches from `j2` also matches from any earlier `j1`.
proof fn lemma_star_earlier(p: Seq<char>, t: Seq<char>, i: int, j1: int, j2: int)
    requires
        0 <= i < p.len(),
        p[i] == '*',
        0 <= j1 <= j2 <= t.len(),
        suffix_match(p, t, i, j2),
    ensures
        suffix_match(p, t, i, j1),
    decreases j2 - j1,
{
    if j1 < j2 {
        lemma_star_earlier(p, t, i, j1 + 1, j2);
        lemma_unfold(p, t, i, j1);
    }
}

/// A star-free run of `n` pattern characters at `a` matches from `b` exactly
/// when the text holds the same run at `b` and the rest matches after it.
proof fn lemma_literal_run(p: Seq<char>, t: Seq<char>, a: int, b: int, n: int)
    requires
        0 <= a,
        0 <= n,
        a + n <= p.len(),
        0 <= b <= t.len(),
        star_free(p, a, a + n),
    ensures
        suffix_match(p, t, a, b) == (b + n <= t.len() && same_run(p, a, t, b, n) && suffix_match(
            p,
            t,
            a + n,
            b + n,
        )),
    decreases n,
{
    if n == 0 {
        assert(p.subrange(a, a) =~= t.subrange(b, b));
    } else {
        lemma_unfold(p, t, a, b);
        if b < t.len() {
            lemma_literal_run(p, t, a + 1, b + 1, n - 1);
            if b + n <= t.len() {
                assert(p.subrange(a, a + n) =~= seq![p[a]] + p.subrange(a + 1, a + n));
                assert(t.subrange(b, b + n) =~= seq![t[b]] + t.subrange(b + 1, b + n));
                if same_run(p, a, t, b, n) {
                    assert(p.subrange(a, a + n)[0] == t.subrange(b, b + n)[0]);
                    assert(p.subrange(a + 1, a + n) =~= p.subrange(a, a + n).drop_first());
                    assert(t.subrange(b + 1, b + n) =~= t.subrange(b, b + n).drop_first());
                }
            }
        }
    }
}

/// A `*` at `s` followed by a star-free run of `n` characters: whatever it
/// matches from `m`, the run is found at some `k >= m` and the pattern after
/// the run matches from `k + n`.
proof fn lemma_star_then_run(p: Seq<char>, t: Seq<char>, s: int, n: int, m: int) -> (k: int)
    requires
        0 <= s,
        0 <= n,
        s + 1 + n <= p.len(),
        p[s] == '*',
        star_free(p, s + 1, s + 1 + n),
        0 <= m <= t.len(),
        suffix_match(p, t, s, m),
    ensures
        m <= k,
        k + n <= t.len(),
        suffix_match(p, t, s + 1 + n, k + n),
    decreases t.len() - m,
{
    lemma_unfold(p, t, s, m);
    if suffix_match(p, t, s + 1, m) {
        lemma_literal_run(p, t, s + 1, m, n);
        m
    } else {
        lemma_star_then_run(p, t, s, n, m + 1)
    }
}

/// `true` when `pattern` matches `text` as one segment: `*` matches any run of
/// characters (including none), everything else is literal.
pub fn segment_match(pattern: &Vec<char>, text: &Vec<char>) -> (matched: bool)
    ensures
        matched == wildcard_match(pattern@, text@),
{
    let (matched, _) = segment_match_counted(pattern, text);
    matched
}

/// `segment_match`, together with the number of steps its two loops take:
/// at most `(pattern.len() + 1) * (text.len() + 1)`.
pub fn segment_match_counted(pattern: &Vec<char>, text: &Vec<char>) -> (res: (bool, Ghost<int>))
    ensures
        res.0 == wildcard_match(pattern@, text@),
        0 <= res.1@ <= (pattern@.len() + 1) * (text@.len() + 1),
{
    let ghost p = pattern@;
    let ghost t = text@;
    let ghost goal = wildcard_match(p, t);
    let plen = pattern.len();
    let tlen = text.len();
    let mut pi: usize = 0;
    let mut ti: usize = 0;
    let mut star: Option<usize> = None;
    let mut mark: usize = 0;
    let ghost mut steps: int = 0;
    proof {
        assert(p.skip(0) =~= p);
        assert(t.skip(0) =~= t);
    }
    while ti < tlen
        invariant
            p == pattern@,
            t == text@,
            plen == p.len(),
            tlen == t.len(),
            goal == wildcard_match(p, t),
            pi <= plen,
            mark <= ti <= tlen,
            0 <= steps <= mark * (plen + 1) + pi,
            star is None ==> goal == suffix_match(p, t, pi as int, ti as int),
            star matches Some(s) ==> {
                &&& s < pi
                &&& p[s as int] == '*'
                &&& ti - mark == pi - s - 1
                &&& star_free(p, s + 1, pi as int)
                &&& same_run(p, s + 1, t, mark as int, pi - s - 1)
                &&& goal == suffix_match(p, t, s as int, mark as int)
            },
        decreases tlen - mark, plen + tlen - pi - ti,
    {
        proof {
            steps = steps + 1;
            assert(mark * (plen + 1) <= ti * (plen + 1)) by (nonlinear_arith)
                requires
                    mark <= ti,
            ;
            assert(mark * (plen + 1) + plen + 1 == (mark + 1) * (plen + 1)) by (nonlinear_arith);
        }
        if pi < plen && pattern[pi] == '*' {
            proof {
                if let Some(s) = star {
                    let n = pi - s - 1;
                    lemma_literal_run(p, t, s + 1, mark as int, n);
                    lemma_unfold(p, t, s as int, mark as int);
                    if suffix_match(p, t, s as int, mark as int) {
                        let k = lemma_star_then_run(p, t, s as int, n, mark as int);
                        lemma_star_earlier(p, t, pi as int, ti as int, k + n);
                    }
                }
            }
            star = Some(pi);
            mark = ti;
            pi = pi + 1;
            assert(p.subrange(pi as int, pi as int) =~= t.subrange(ti as int, ti as int));
        } else if pi < plen && pattern[pi] == text[ti] {
            proof {
                if let Some(s) = star {
                    assert(p.subrange(s + 1, pi + 1) =~= p.subrange(s + 1, pi as int).push(p[pi as int]));
                    assert(t.subrange(mark as int, ti + 1) =~= t.subrange(mark as int, ti as int).push(t[ti as int]));
                } else {
                    lemma_unfold(p, t, pi as int, ti as int);
                    assert(p[pi as int] != '*');
                    assert(p[pi as int] == t[ti as int]);
                    assert(goal == suffix_match(p, t, pi + 1, ti + 1));
                }
            }
            pi = pi + 1;
            ti = ti + 1;
        } else if let Some(s) = star {
            proof {
                let n = pi - s - 1;
                lemma_unfold(p, t, s as int, mark as int);
                lemma_literal_run(p, t, s + 1, mark as int, n);
                lemma_unfold(p, t, pi as int, ti as int);
            }
            pi = s + 1;
            mark = mark + 1;
            ti = mark;
            assert(p.subrange(pi as int, pi as int) =~= t.subrange(ti as int, ti as int));
        } else {
            proof {
                lemma_unfold(p, t, pi as int, ti as int);
                lemma_step_bound(steps, mark + 1, 0, plen as int, tlen as int);
            }
            return (false, Ghost(steps));
        }
    }
    proof {
        if let Some(s) = star {
            let n = pi - s - 1;
            lemma_literal_run(p, t, s + 1, mark as int, n);
            if suffix_match(p, t, s as int, mark as int) {
                // The run sits at the very end of the text, so it starts at `mark`.
                lemma_star_then_run(p, t, s as int, n, mark as int);
            }
            lemma_unfold(p, t, s as int, mark as int);
        }
    }
    proof {
        assert(mark * (plen + 1) <= tlen * (plen + 1)) by (nonlinear_arith)
            requires
                mark <= tlen,
        ;
    }
    while pi < plen && pattern[pi] == '*'
        invariant
            p == pattern@,
            t == text@,
            plen == p.len(),
            tlen == t.len(),
            pi <= plen,
            goal == suffix_match(p, t, pi as int, tlen as int),
            0 <= steps <= tlen * (plen + 1) + pi,
        decreases plen - pi,
    {
        proof {
            steps = steps + 1;
            lemma_unfold(p, t, pi as int, tlen as int);
        }
        pi = pi + 1;
    }
    proof {
        lemma_unfold(p, t, pi as int, tlen as int);
        lemma_step_bound(steps, tlen as int, pi as int, plen as int, tlen as int);
    }
    (pi == plen, Ghost(steps))
}

/// The step count of `segment_match_counted` stays within its bound.
proof fn lemma_step_bound(steps: int, mark: int, pi: int, plen: int, tlen: int)
    requires
        0 <= mark <= tlen,
        0 <= pi <= plen,
        0 <= steps <= mark * (plen + 1) + pi,
    ensures
        steps <= (plen + 1) * (tlen + 1),
{
    assert(mark * (plen + 1) <= tlen * (plen + 1)) by (nonlinear_arith)
        requires
            mark <= tlen,
            0 <= plen,
    ;
    assert((plen + 1) * (tlen + 1) == tlen * (plen + 1) + plen + 1) by (nonlinear_arith);
}

/// The pieces of `s` between `/` separators, empty pieces included: a string
/// with `n` separators has `n + 1` pieces.
pub open spec fn split_on_slash(s: Seq<char>) -> Seq<Seq<char>>
    decreases s.len(),
{
    if s.len() == 0 {
        seq![Seq::empty()]
    } else {
        let init = split_on_slash(s.drop_last());
        if s.last() == '/' {
            init.push(Seq::empty())
        } else {
            init.update(init.len() - 1, init.last().push(s.last()))
        }
    }
}

/// Holds of the pieces that count as segments: the non-empty ones.
pub open spec fn is_segment() -> spec_fn(Seq<char>) -> bool {
    |piece: Seq<char>| piece.len() > 0
}

/// The segments of a path: its non-empty pieces between `/` separators, in
/// order. Leading, trailing and repeated slashes only make empty pieces, so
/// they change nothing.
pub open spec fn segments(s: Seq<char>) -> Seq<Seq<char>> {
    split_on_slash(s).filter(is_segment())
}

/// The views of a vector of character vectors.
pub open spec fn views(v: Seq<Vec<char>>) -> Seq<Seq<char>> {
    v.map_values(|x: Vec<char>| x@)
}

/// The pattern segment that stands for any number of path segments.
pub open spec fn double_star() -> Seq<char> {
    seq!['*', '*']
}

/// Segment-wise match: a `**` pattern segment matches any number of path
/// segments (none, or one more and then any number again); any other pattern
/// segment matches exactly one path segment by `wildcard_match`.
pub open spec fn segments_match(pat: Seq<Seq<char>>, target: Seq<Seq<char>>) -> bool
    decreases pat.len(), target.len(),
{
    if pat.len() == 0 {
        target.len() == 0
    } else if pat[0] == double_star() {
        segments_match(pat.drop_first(), target) || (target.len() > 0 && segments_match(
            pat,
            target.drop_first(),
        ))
    } else {
        target.len() > 0 && wildcard_match(pat[0], target[0]) && segments_match(
            pat.drop_first(),
            target.drop_first(),
        )
    }
}

/// The glob language of the allow rules: `pattern` matches `path` when their
/// segments match segment-wise.
pub open spec fn glob_matches(pattern: Seq<char>, path: Seq<char>) -> bool {
    segments_match(segments(pattern), segments(path))
}

/// `segments_match` of the suffixes of `pat` and `target` from `i` and `j`.
pub open spec fn segments_match_from(
    pat: Seq<Seq<char>>,
    target: Seq<Seq<char>>,
    i: int,
    j: int,
) -> bool {
    segments_match(pat.skip(i), target.skip(j))
}

/// One step of `segments_match`, read at positions `i` and `j`.
proof fn lemma_segments_unfold(pat: Seq<Seq<char>>, target: Seq<Seq<char>>, i: int, j: int)
    requires
        0 <= i <= pat.len(),
        0 <= j <= target.len(),
    ensures
        segments_match_from(pat, target, i, j) == if i == pat.len() {
            j == target.len()
        } else if pat[i] == double_star() {
            segments_match_from(pat, target, i + 1, j) || (j < target.len()
                && segments_match_from(pat, target, i, j + 1))
        } else {
            j < target.len() && wildcard_match(pat[i], target[j]) && segments_match_from(
                pat,
                target,
                i + 1,
                j + 1,
            )
        },
{
    let x = pat.skip(i);
    let y = target.skip(j);
    assert(x.len() == pat.len() - i);
    assert(y.len() == target.len() - j);
    if i < pat.len() {
        assert(x.drop_first() =~= pat.skip(i + 1));
        assert(x[0] == pat[i]);
    }
    if j < target.len() {
        assert(y.drop_first() =~= target.skip(j + 1));
        assert(y[0] == target[j]);
    }
}

/// A `**` at `i` matches from `j` exactly when the rest of the pattern
/// matches from some `k` with `j <= k`.
proof fn lemma_double_star_any(pat: Seq<Seq<char>>, target: Seq<Seq<char>>, i: int, j: int)
    requires
        0 <= i < pat.len(),
        pat[i] == double_star(),
        0 <= j <= target.len(),
    ensures
        segments_match_from(pat, target, i, j) <==> exists|k: int|
            j <= k <= target.len() && #[trigger] segments_match_from(pat, target, i + 1, k),
    decreases target.len() - j,
{
    lemma_segments_unfold(pat, target, i, j);
    if j < target.len() {
        lemma_double_star_any(pat, target, i, j + 1);
        if exists|k: int| j <= k <= target.len() && #[trigger] segments_match_from(pat, target, i + 1, k) {
            let k = choose|k: int|
                j <= k <= target.len() && #[trigger] segments_match_from(pat, target, i + 1, k);
            if k > j {
                assert(segments_match_from(pat, target, i + 1, k));
            }
        }
    } else {
        if exists|k: int| j <= k <= target.len() && #[trigger] segments_match_from(pat, target, i + 1, k) {
            let k = choose|k: int|
                j <= k <= target.len() && #[trigger] segments_match_from(pat, target, i + 1, k);
            assert(k == j);
        }
    }
}

/// `true` when `seg` is the `**` segment.
fn is_double_star(seg: &Vec<char>) -> (b: bool)
    ensures
        b == (seg@ == double_star()),
{
    if seg.len() == 2 && seg[0] == '*' && seg[1] == '*' {
        assert(seg@ =~= double_star());
        true
    } else {
        false
    }
}

/// Splits `s` into its segments: the non-empty runs of characters between
/// `/` separators.
pub fn split_segments(s: &str) -> (segs: Vec<Vec<char>>)
    ensures
        views(segs@) == segments(s@),
{
    let c = chars_of(s);
    let n = c.len();
    let mut segs: Vec<Vec<char>> = Vec::new();
    let mut cur: Vec<char> = Vec::new();
    proof {
        assert(c@.take(0) =~= Seq::<char>::empty());
        reveal_with_fuel(Seq::filter, 1);
        assert(views(segs@) =~= seq![]);
    }
    let mut i: usize = 0;
    while i < n
        invariant
            n == c@.len(),
            i <= n,
            split_on_slash(c@.take(i as int)).len() >= 1,
            split_on_slash(c@.take(i as int)).last() == cur@,
            split_on_slash(c@.take(i as int)).drop_last().filter(is_segment()) == views(segs@),
        decreases n - i,
    {
        let ghost before = split_on_slash(c@.take(i as int));
        proof {
            assert(c@.take(i + 1).drop_last() =~= c@.take(i as int));
            assert(c@.take(i + 1).last() == c@[i as int]);
        }
        if c[i] == '/' {
            proof {
                assert(before.drop_last().push(before.last()) =~= before);
                before.drop_last().lemma_filter_push(before.last(), is_segment());
                assert(split_on_slash(c@.take(i + 1)).drop_last() =~= before);
            }
            if cur.len() > 0 {
                let ghost old_segs = segs@;
                segs.push(cur);
                proof {
                    assert(views(segs@) =~= views(old_segs).push(before.last()));
                }
            }
            cur = Vec::new();
            proof {
                assert(cur@ =~= Seq::<char>::empty());
            }
        } else {
            let ch = c[i];
            cur.push(ch);
            proof {
                let after = split_on_slash(c@.take(i + 1));
                assert(after.drop_last() =~= before.drop_last());
            }
        }
        i = i + 1;
    }
    proof {
        assert(c@.take(n as int) =~= s@);
    }
    let ghost pieces = split_on_slash(s@);
    proof {
        assert(pieces.drop_last().push(pieces.last()) =~= pieces);
        pieces.drop_last().lemma_filter_push(pieces.last(), is_segment());
    }
    if cur.len() > 0 {
        let ghost old_segs = segs@;
        segs.push(cur);
        proof {
            assert(views(segs@) =~= views(old_segs).push(pieces.last()));
        }
    }
    segs
}

/// Matches the pattern segments from `pi` on against the path segments from
/// `ti` on. Each nested call moves one pattern segment on and every call has
/// `pi <= pat.len()`, so from `pi == 0` the recursion is at most
/// `pat.len() + 1` calls deep; path segments are read only below
/// `target.len()`.
pub fn match_segments(pat: &Vec<Vec<char>>, target: &Vec<Vec<char>>, pi: usize, ti: usize) -> (matched:
    bool)
    requires
        pi <= pat.len(),
        ti <= target.len(),
    ensures
        matched == segments_match_from(views(pat@), views(target@), pi as int, ti as int),
    decreases pat.len() - pi,
{
    let ghost pv = views(pat@);
    let ghost tv = views(target@);
    proof {
        lemma_segments_unfold(pv, tv, pi as int, ti as int);
    }
    if pi == pat.len() {
        return ti == target.len();
    }
    if is_double_star(&pat[pi]) {
        let tlen = target.len();
        let mut i = ti;
        loop
            invariant
                pv == views(pat@),
                tv == views(target@),
                pi < pat.len(),
                pv[pi as int] == double_star(),
                tlen == target.len(),
                ti <= i <= tlen,
                forall|k: int| ti <= k < i ==> !#[trigger] segments_match_from(pv, tv, pi + 1, k),
            decreases tlen - i,
        {
            if match_segments(pat, target, pi + 1, i) {
                proof {
                    lemma_double_star_any(pv, tv, pi as int, ti as int);
                }
                return true;
            }
            if i == tlen {
                proof {
                    lemma_double_star_any(pv, tv, pi as int, ti as int);
                }
                return false;
            }
            i = i + 1;
        }
    } else {
        ti < target.len() && segment_match(&pat[pi], &target[ti]) && match_segments(
            pat,
            target,
            pi + 1,
            ti + 1,
        )
    }
}

/// A lone `*` matches any one segment, the empty one included.
pub proof fn law_star_matches_any_segment(text: Seq<char>)
    ensures
        wildcard_match(seq!['*'], text),
    decreases text.len(),
{
    let p = seq!['*'];
    assert(p.len() == 1 && p[0] == '*');
    assert(p.drop_first() =~= Seq::<char>::empty());
    if text.len() > 0 {
        law_star_matches_any_segment(text.drop_first());
        assert(wildcard_match(p, text.drop_first()));
    } else {
        assert(wildcard_match(p.drop_first(), text));
    }
}

/// A segment pattern without `*` matches exactly the segment equal to it.
pub proof fn law_literal_segment(pattern: Seq<char>, text: Seq<char>)
    requires
        star_free(pattern, 0, pattern.len() as int),
    ensures
        wildcard_match(pattern, text) <==> pattern == text,
    decreases pattern.len(),
{
    if pattern.len() > 0 && text.len() > 0 {
        law_literal_segment(pattern.drop_first(), text.drop_first());
        if pattern[0] == text[0] && pattern.drop_first() == text.drop_first() {
            assert(pattern =~= seq![pattern[0]] + pattern.drop_first());
            assert(text =~= seq![text[0]] + text.drop_first());
        }
        if pattern == text {
            assert(pattern.drop_first() =~= text.drop_first());
        }
    } else if pattern.len() == 0 && text.len() == 0 {
        assert(pattern =~= text);
    }
}

/// No character of `s` is `*`.
pub open spec fn no_star(s: Seq<char>) -> bool {
    forall|k: int| 0 <= k < s.len() ==> s[k] != '*'
}

/// When no pattern segment holds a `*`, the segments match exactly when they
/// are the same.
pub proof fn law_literal_segments(pat: Seq<Seq<char>>, target: Seq<Seq<char>>)
    requires
        forall|i: int| 0 <= i < pat.len() ==> no_star(#[trigger] pat[i]),
    ensures
        segments_match(pat, target) <==> pat == target,
    decreases pat.len(),
{
    if pat.len() > 0 {
        assert(pat[0] != double_star()) by {
            assert(no_star(pat[0]));
            if pat[0] == double_star() {
                assert(pat[0][0] == '*');
            }
        }
        assert forall|i: int| 0 <= i < pat.drop_first().len() implies no_star(
            #[trigger] pat.drop_first()[i],
        ) by {
            assert(pat.drop_first()[i] == pat[i + 1]);
        }
        if target.len() > 0 {
            law_literal_segment(pat[0], target[0]);
            law_literal_segments(pat.drop_first(), target.drop_first());
            if pat[0] == target[0] && pat.drop_first() == target.drop_first() {
                assert(pat =~= seq![pat[0]] + pat.drop_first());
                assert(target =~= seq![target[0]] + target.drop_first());
            }
            if pat == target {
                assert(pat.drop_first() =~= target.drop_first());
            }
        }
    } else if target.len() == 0 {
        assert(pat =~= target);
    }
}

/// Every character of a piece of `s` is a character of `s`.
proof fn lemma_pieces_chars(s: Seq<char>)
    ensures
        forall|i: int, k: int|
            0 <= i < split_on_slash(s).len() && 0 <= k < split_on_slash(s)[i].len()
                ==> s.contains(#[trigger] split_on_slash(s)[i][k]),
        split_on_slash(s).len() >= 1,
    decreases s.len(),
{
    if s.len() > 0 {
        let init = split_on_slash(s.drop_last());
        lemma_pieces_chars(s.drop_last());
        assert forall|i: int, k: int|
            0 <= i < split_on_slash(s).len() && 0 <= k < split_on_slash(
                s,
            )[i].len() implies s.contains(#[trigger] split_on_slash(s)[i][k]) by {
            let c = split_on_slash(s)[i][k];
            if s.last() != '/' && i == init.len() - 1 && k == init.last().len() {
                assert(c == s.last());
                assert(s[s.len() - 1] == c);
            } else {
                assert(s.drop_last().contains(c));
                let w = choose|w: int| 0 <= w < s.drop_last().len() && s.drop_last()[w] == c;
                assert(s[w] == c);
            }
        }
    }
}

/// A pattern without `*` matches exactly the paths with the same segments.
pub proof fn law_literal_pattern(pattern: Seq<char>, path: Seq<char>)
    requires
        no_star(pattern),
    ensures
        glob_matches(pattern, path) <==> segments(pattern) == segments(path),
{
    let pieces = split_on_slash(pattern);
    lemma_pieces_chars(pattern);
    let segs = segments(pattern);
    assert forall|i: int| 0 <= i < segs.len() implies no_star(#[trigger] segs[i]) by {
        assert(segs.contains(segs[i]));
        pieces.lemma_filter_contains_rev(is_segment(), segs[i]);
        assert(pieces.contains(segs[i]));
        let j = choose|j: int| 0 <= j < pieces.len() && pieces[j] == segs[i];
        assert forall|k: int| 0 <= k < segs[i].len() implies segs[i][k] != '*' by {
            assert(pattern.contains(pieces[j][k]));
        }
    }
    law_literal_segments(segs, segments(path));
}

/// Without a `**` segment, a pattern only matches paths with as many
/// segments as it has: `*` never reaches across a `/`.
pub proof fn law_single_segment_wildcards(pat: Seq<Seq<char>>, target: Seq<Seq<char>>)
    requires
        forall|i: int| 0 <= i < pat.len() ==> #[trigger] pat[i] != double_star(),
        segments_match(pat, target),
    ensures
        pat.len() == target.len(),
    decreases pat.len(),
{
    if pat.len() > 0 {
        assert(pat[0] != double_star());
        assert forall|i: int| 0 <= i < pat.drop_first().len() implies #[trigger] pat.drop_first()[i]
            != double_star() by {
            assert(pat.drop_first()[i] == pat[i + 1]);
        }
        law_single_segment_wildcards(pat.drop_first(), target.drop_first());
    }
}

/// A lone `**` pattern matches every path.
pub proof fn law_double_star_matches_all(target: Seq<Seq<char>>)
    ensures
        segments_match(seq![double_star()], target),
    decreases target.len(),
{
    let pat = seq![double_star()];
    assert(pat.len() == 1 && pat[0] == double_star());
    assert(pat.drop_first() =~= Seq::<Seq<char>>::empty());
    if target.len() > 0 {
        law_double_star_matches_all(target.drop_first());
        assert(segments_match(pat, target.drop_first()));
    } else {
        assert(segments_match(pat.drop_first(), target));
    }
}

/// A trailing `**` extends a match to every path below: whatever `pat`
/// matches, `pat` followed by `**` matches with any further segments added.
pub proof fn law_trailing_double_star(
    pat: Seq<Seq<char>>,
    target: Seq<Seq<char>>,
    more: Seq<Seq<char>>,
)
    requires
        segments_match(pat, target),
    ensures
        segments_match(pat.push(double_star()), target + more),
    decreases pat.len(), target.len(),
{
    let ext = pat.push(double_star());
    if pat.len() == 0 {
        assert(ext =~= seq![double_star()]);
        assert(target + more =~= more);
        law_double_star_matches_all(more);
    } else {
        assert(ext[0] == pat[0]);
        assert(ext.drop_first() =~= pat.drop_first().push(double_star()));
        if target.len() > 0 {
            assert((target + more).drop_first() =~= target.drop_first() + more);
            assert((target + more)[0] == target[0]);
        }
        if pat[0] == double_star() {
            if segments_match(pat.drop_first(), target) {
                law_trailing_double_star(pat.drop_first(), target, more);
            } else {
                law_trailing_double_star(pat, target.drop_first(), more);
            }
        } else {
            law_trailing_double_star(pat.drop_first(), target.drop_first(), more);
        }
    }
}

/// A slash at the end of a path changes none of its segments.
pub proof fn law_trailing_slash(s: Seq<char>)
    ensures
        segments(s.push('/')) == segments(s),
{
    let t = s.push('/');
    assert(t.drop_last() =~= s);
    split_on_slash(s).lemma_filter_push(Seq::empty(), is_segment());
}

/// `p` with every run of consecutive `*` replaced by a single `*`.
pub open spec fn collapse_stars(p: Seq<char>) -> Seq<char>
    decreases p.len(),
{
    if p.len() == 0 {
        p
    } else if p.len() >= 2 && p[0] == '*' && p[1] == '*' {
        collapse_stars(p.drop_first())
    } else {
        seq![p[0]] + collapse_stars(p.drop_first())
    }
}

/// `**` at the head of a segment pattern matches as a single `*` does.
proof fn lemma_double_star_head(q: Seq<char>, t: Seq<char>)
    ensures
        wildcard_match(seq!['*', '*'] + q, t) == wildcard_match(seq!['*'] + q, t),
    decreases t.len(),
{
    let d = seq!['*', '*'] + q;
    let s = seq!['*'] + q;
    assert(d.len() == q.len() + 2 && d[0] == '*');
    assert(s.len() == q.len() + 1 && s[0] == '*');
    assert(d.drop_first() =~= s);
    assert(s.drop_first() =~= q);
    if t.len() > 0 {
        lemma_double_star_head(q, t.drop_first());
    }
}

/// Segment patterns that match the same texts keep doing so behind any
/// common prefix.
proof fn lemma_same_after_prefix(a: Seq<char>, x: Seq<char>, y: Seq<char>, t: Seq<char>)
    requires
        forall|u: Seq<char>| wildcard_match(x, u) == #[trigger] wildcard_match(y, u),
    ensures
        wildcard_match(a + x, t) == wildcard_match(a + y, t),
    decreases a.len() + t.len(),
{
    if a.len() == 0 {
        assert(a + x =~= x);
        assert(a + y =~= y);
        assert(wildcard_match(x, t) == wildcard_match(y, t));
    } else {
        assert((a + x)[0] == a[0] && (a + y)[0] == a[0]);
        assert((a + x).drop_first() =~= a.drop_first() + x);
        assert((a + y).drop_first() =~= a.drop_first() + y);
        lemma_same_after_prefix(a.drop_first(), x, y, t);
        if t.len() > 0 {
            lemma_same_after_prefix(a.drop_first(), x, y, t.drop_first());
            if a[0] == '*' {
                lemma_same_after_prefix(a, x, y, t.drop_first());
            }
        }
    }
}

/// Collapsing runs of `*` in a segment pattern changes no match: `a**`
/// matches exactly what `a*` matches, `**` inside a segment what `*` does.
pub proof fn law_collapsed_stars(p: Seq<char>)
    ensures
        forall|t: Seq<char>| #[trigger] wildcard_match(collapse_stars(p), t) == wildcard_match(p, t),
    decreases p.len(),
{
    if p.len() > 0 {
        law_collapsed_stars(p.drop_first());
        let c = collapse_stars(p.drop_first());
        if p.len() >= 2 && p[0] == '*' && p[1] == '*' {
            let q = p.drop_first().drop_first();
            assert(p =~= seq!['*', '*'] + q);
            assert(p.drop_first() =~= seq!['*'] + q);
            assert forall|t: Seq<char>| #[trigger]
                wildcard_match(collapse_stars(p), t) == wildcard_match(p, t) by {
                lemma_double_star_head(q, t);
                assert(wildcard_match(c, t) == wildcard_match(p.drop_first(), t));
            }
        } else {
            let head = seq![p[0]];
            assert(p =~= head + p.drop_first());
            assert forall|t: Seq<char>| #[trigger]
                wildcard_match(collapse_stars(p), t) == wildcard_match(p, t) by {
                assert forall|u: Seq<char>| wildcard_match(c, u) == #[trigger] wildcard_match(
                    p.drop_first(),
                    u,
                ) by {
                    assert(wildcard_match(c, u) == wildcard_match(p.drop_first(), u));
                }
                lemma_same_after_prefix(head, c, p.drop_first(), t);
            }
        }
    }
}

/// Splitting gives at least one piece.
proof fn lemma_split_nonempty(s: Seq<char>)
    ensures
        split_on_slash(s).len() >= 1,
    decreases s.len(),
{
    if s.len() > 0 {
        lemma_split_nonempty(s.drop_last());
    }
}

/// A string without `/` is a single piece.
proof fn lemma_split_word(w: Seq<char>)
    requires
        forall|k: int| 0 <= k < w.len() ==> w[k] != '/',
    ensures
        split_on_slash(w) == seq![w],
    decreases w.len(),
{
    if w.len() > 0 {
        lemma_split_word(w.drop_last());
        assert(w.last() != '/');
        assert(w.drop_last().push(w.last()) =~= w);
        assert(seq![w.drop_last()].update(0, w.drop_last().push(w.last())) =~= seq![w]);
    } else {
        assert(w =~= Seq::<char>::empty());
    }
}

/// Splitting at a `/` splits the pieces: the pieces of `a`, `/`, `b` are
/// those of `a` followed by those of `b`.
pub proof fn law_split_at_slash(a: Seq<char>, b: Seq<char>)
    ensures
        split_on_slash(a + seq!['/'] + b) == split_on_slash(a) + split_on_slash(b),
    decreases b.len(),
{
    let s = a + seq!['/'] + b;
    lemma_split_nonempty(a);
    if b.len() == 0 {
        assert(s.drop_last() =~= a);
        assert(s.last() == '/');
        assert(split_on_slash(a).push(Seq::empty()) =~= split_on_slash(a) + seq![Seq::<char>::empty()]);
    } else {
        let b0 = b.drop_last();
        law_split_at_slash(a, b0);
        lemma_split_nonempty(b0);
        assert(s.drop_last() =~= a + seq!['/'] + b0);
        assert(s.last() == b.last());
        let x = split_on_slash(a);
        let y = split_on_slash(b0);
        if b.last() == '/' {
            assert((x + y).push(Seq::empty()) =~= x + y.push(Seq::empty()));
        } else {
            let z = x + y;
            assert(z.last() == y.last());
            assert(z.update(z.len() - 1, z.last().push(b.last())) =~= x + y.update(
                y.len() - 1,
                y.last().push(b.last()),
            ));
        }
    }
}

/// Segments split at `/` only: the segments of `a`, `/`, `b` are those of
/// `a` followed by those of `b`.
pub proof fn law_segments_at_slash(a: Seq<char>, b: Seq<char>)
    ensures
        segments(a + seq!['/'] + b) == segments(a) + segments(b),
{
    law_split_at_slash(a, b);
    Seq::filter_distributes_over_add(split_on_slash(a), split_on_slash(b), is_segment());
}

/// A non-empty run of characters without `/` is one whole segment, whatever
/// characters (`.`, `-`, `*`, ...) it holds; an empty one has no segment.
pub proof fn law_segments_of_word(w: Seq<char>)
    requires
        forall|k: int| 0 <= k < w.len() ==> w[k] != '/',
    ensures
        w.len() > 0 ==> segments(w) == seq![w],
        w.len() == 0 ==> segments(w).len() == 0,
        w.len() > 0 ==> segments(seq!['/'] + w) == seq![w],
{
    lemma_split_word(w);
    reveal_with_fuel(Seq::filter, 2);
    assert(seq![w].drop_last() =~= Seq::<Seq<char>>::empty());
    law_segments_at_slash(Seq::empty(), w);
    assert(Seq::<char>::empty() + seq!['/'] + w =~= seq!['/'] + w);
    assert(split_on_slash(Seq::<char>::empty()) == seq![Seq::<char>::empty()]);
    assert(seq![Seq::<char>::empty()].drop_last() =~= Seq::<Seq<char>>::empty());
    assert(segments(Seq::<char>::empty()) =~= Seq::<Seq<char>>::empty());
    assert(Seq::<Seq<char>>::empty() + seq![w] =~= seq![w]);
}

/// A star-free literal in front of a pattern is matched by the same
/// characters in front of the text, and nothing else changes.
proof fn lemma_literal_prefix(a: Seq<char>, x: Seq<char>, u: Seq<char>)
    requires
        no_star(a),
    ensures
        wildcard_match(a + x, a + u) == wildcard_match(x, u),
    decreases a.len(),
{
    if a.len() == 0 {
        assert(a + x =~= x);
        assert(a + u =~= u);
    } else {
        let a1 = a.drop_first();
        assert(no_star(a1)) by {
            assert forall|k: int| 0 <= k < a1.len() implies a1[k] != '*' by {
                assert(a1[k] == a[k + 1]);
            }
        }
        lemma_literal_prefix(a1, x, u);
        assert((a + x)[0] == a[0] && (a + u)[0] == a[0]);
        assert(a[0] != '*');
        assert((a + x).drop_first() =~= a1 + x);
        assert((a + u).drop_first() =~= a1 + u);
    }
}

/// A `*` followed by `b` matches any text that ends in `b`.
proof fn lemma_star_then(b: Seq<char>, m: Seq<char>)
    requires
        no_star(b),
    ensures
        wildcard_match(seq!['*'] + b, m + b),
    decreases m.len(),
{
    let p = seq!['*'] + b;
    assert(p[0] == '*');
    assert(p.drop_first() =~= b);
    if m.len() == 0 {
        assert(m + b =~= b);
        law_literal_segment(b, b);
    } else {
        lemma_star_then(b, m.drop_first());
        assert((m + b).drop_first() =~= m.drop_first() + b);
    }
}

/// Inside a segment, `*` stands for any run of characters: `a*b` with
/// star-free `a` and `b` matches `a`, then anything, then `b`.
pub proof fn law_star_matches_any_infix(a: Seq<char>, b: Seq<char>, m: Seq<char>)
    requires
        no_star(a),
        no_star(b),
    ensures
        wildcard_match(a + seq!['*'] + b, a + m + b),
{
    lemma_star_then(b, m);
    lemma_literal_prefix(a, seq!['*'] + b, m + b);
    assert(a + seq!['*'] + b =~= a + (seq!['*'] + b));
    assert(a + m + b =~= a + (m + b));
}

/// `**` spans any number of segments: whenever `pat` matches `target` and
/// `rest` matches `tail`, `pat`, `**`, `rest` matches `target`, any
/// segments `more`, then `tail`.
pub proof fn law_double_star_spans(
    pat: Seq<Seq<char>>,
    target: Seq<Seq<char>>,
    more: Seq<Seq<char>>,
    rest: Seq<Seq<char>>,
    tail: Seq<Seq<char>>,
)
    requires
        segments_match(pat, target),
        segments_match(rest, tail),
    ensures
        segments_match(pat + seq![double_star()] + rest, target + more + tail),
    decreases pat.len(), target.len(),
{
    let ext = pat + seq![double_star()] + rest;
    if pat.len() == 0 {
        assert(target.len() == 0);
        assert(ext =~= seq![double_star()] + rest);
        assert(target + more + tail =~= more + tail);
        lemma_double_star_absorbs(rest, more, tail);
    } else {
        assert(ext[0] == pat[0]);
        assert(ext.drop_first() =~= pat.drop_first() + seq![double_star()] + rest);
        let full = target + more + tail;
        if target.len() > 0 {
            assert(full.drop_first() =~= target.drop_first() + more + tail);
            assert(full[0] == target[0]);
        }
        if pat[0] == double_star() {
            if segments_match(pat.drop_first(), target) {
                law_double_star_spans(pat.drop_first(), target, more, rest, tail);
            } else {
                law_double_star_spans(pat, target.drop_first(), more, rest, tail);
            }
        } else {
            law_double_star_spans(pat.drop_first(), target.drop_first(), more, rest, tail);
        }
    }
}

/// A leading `**` takes any segments in front of what the rest matches.
proof fn lemma_double_star_absorbs(rest: Seq<Seq<char>>, more: Seq<Seq<char>>, tail: Seq<Seq<char>>)
    requires
        segments_match(rest, tail),
    ensures
        segments_match(seq![double_star()] + rest, more + tail),
    decreases more.len(),
{
    let p = seq![double_star()] + rest;
    assert(p[0] == double_star());
    assert(p.drop_first() =~= rest);
    if more.len() == 0 {
        assert(more + tail =~= tail);
    } else {
        lemma_double_star_absorbs(rest, more.drop_first(), tail);
        assert((more + tail).drop_first() =~= more.drop_first() + tail);
    }
}

} // verus!
