//! The search for the distance, diagonal by diagonal.
//!
//! The points `(i, j)` of the edit graph with the same `i - j` form a
//! diagonal. Along a diagonal the distance to the end never grows, so on
//! each diagonal the points within a given distance `d` of the end are
//! those from some point on: the diagonal's frontier for `d`. The frontiers
//! for `d` follow from those for `d - 1` on the two neighbouring diagonals,
//! which keeps the work proportional to the distance found, not to the
//! size of the graph.
//!
//! In round `d` the diagonal number `t`, with `0 <= t <= d`, holds the
//! points from which the end is reached by, on balance, `d - t` deletions
//! and `t` insertions: `(a.len() - i) - (b.len() - j) == (d - t) - t`.

use vstd::prelude::*;
use crate::script::{DiffKind, DiffOp, keep, delete, insert};
use crate::distance::{suffix_distance, edit_distance, lemma_distance_neighbours,
    lemma_match_is_free, lemma_diagonal_step, lemma_distance_range};
use crate::canonical::{lines_match, deletion_is_shortest, script_from, diff_script};

verus! {

/// `(i, j)` is a point of the edit graph of `a` and `b`, on diagonal `t` of round `d`.
pub open spec fn on_diagonal(
    a: Seq<Seq<char>>,
    b: Seq<Seq<char>>,
    d: int,
    t: int,
    i: int,
    j: int,
) -> bool {
    &&& 0 <= i <= a.len()
    &&& 0 <= j <= b.len()
    &&& (a.len() - i) + t == (b.len() - j) + (d - t)
}

/// `w` is the frontier of diagonal `t` in round `d`: the points of the
/// diagonal within distance `d` of the end are those with `w <= i`.
pub open spec fn is_frontier(a: Seq<Seq<char>>, b: Seq<Seq<char>>, d: int, t: int, w: int) -> bool {
    forall|i: int, j: int| #[trigger]
        on_diagonal(a, b, d, t, i, j) ==> (suffix_distance(a, b, i, j) <= d <==> w <= i)
}

/// `row` holds the frontiers of round `d`, one for each diagonal.
pub open spec fn is_round(a: Seq<Seq<char>>, b: Seq<Seq<char>>, d: int, row: Seq<usize>) -> bool {
    &&& row.len() == d + 1
    &&& forall|t: int| 0 <= t <= d ==> is_frontier(a, b, d, t, #[trigger] row[t] as int)
}

/// `rounds` holds the frontiers of the rounds `0`, `1`, and so on, in order.
pub open spec fn are_rounds(a: Seq<Seq<char>>, b: Seq<Seq<char>>, rounds: Seq<Vec<usize>>) -> bool {
    forall|d: int| 0 <= d < rounds.len() ==> is_round(a, b, d, (#[trigger] rounds[d])@)
}

/// `k` steps down a diagonal, the distance is no larger.
pub proof fn lemma_diagonal_run(a: Seq<Seq<char>>, b: Seq<Seq<char>>, i: int, j: int, k: int)
    requires
        0 <= i,
        0 <= j,
        0 <= k,
        i + k <= a.len(),
        j + k <= b.len(),
    ensures
        suffix_distance(a, b, i + k, j + k) <= suffix_distance(a, b, i, j),
    decreases k,
{
    if k > 0 {
        lemma_diagonal_step(a, b, i, j);
        lemma_diagonal_run(a, b, i + 1, j + 1, k - 1);
    }
}

/// Whether line `i` of `a` and line `j` of `b` are the same.
pub(crate) fn same_line(a: &[String], b: &[String], i: usize, j: usize) -> (same: bool)
    requires
        i < a.len(),
        j < b.len(),
    ensures
        same == (a.deep_view()[i as int] == b.deep_view()[j as int]),
{
    a[i] == b[j]
}

/// The last point of diagonal `t` of round `d`, where one of the two
/// sequences ends; `None` if the diagonal has no point in the graph.
fn diagonal_end(a: &[String], b: &[String], d: usize, t: usize) -> (end: Option<(usize, usize)>)
    requires
        t <= d,
    ensures
        match end {
            Some((i, j)) => {
                &&& on_diagonal(a.deep_view(), b.deep_view(), d as int, t as int, i as int, j as int)
                &&& (i == a.len() || j == b.len())
            },
            None => forall|i: int, j: int|
                !#[trigger] on_diagonal(a.deep_view(), b.deep_view(), d as int, t as int, i, j),
        },
{
    let n: usize = a.len();
    let m: usize = b.len();
    let deletions: usize = d - t;
    if deletions >= t {
        let ahead: usize = deletions - t;
        if ahead > n {
            None
        } else {
            Some((n - ahead, m))
        }
    } else {
        let ahead: usize = t - deletions;
        if ahead > m {
            None
        } else {
            Some((n, m - ahead))
        }
    }
}

/// Walks up the diagonal from `(i, j)` over equal lines, as far as they go.
fn slide(a: &[String], b: &[String], i: usize, j: usize) -> (top: (usize, usize))
    requires
        i <= a.len(),
        j <= b.len(),
    ensures
        top.0 <= i,
        top.1 <= j,
        i - top.0 == j - top.1,
        suffix_distance(a.deep_view(), b.deep_view(), top.0 as int, top.1 as int)
            == suffix_distance(a.deep_view(), b.deep_view(), i as int, j as int),
        top.0 == 0 || top.1 == 0 || a.deep_view()[top.0 - 1] != b.deep_view()[top.1 - 1],
{
    let mut x: usize = i;
    let mut y: usize = j;
    while x > 0 && y > 0 && same_line(a, b, x - 1, y - 1)
        invariant
            x <= i <= a.len(),
            y <= j <= b.len(),
            i - x == j - y,
            suffix_distance(a.deep_view(), b.deep_view(), x as int, y as int)
                == suffix_distance(a.deep_view(), b.deep_view(), i as int, j as int),
        decreases x,
    {
        proof {
            lemma_match_is_free(a.deep_view(), b.deep_view(), x - 1, y - 1);
        }
        x = x - 1;
        y = y - 1;
    }
    (x, y)
}

/// At the last point of a diagonal of round `d` the distance is at most `d`.
proof fn lemma_diagonal_end_is_near(
    a: Seq<Seq<char>>,
    b: Seq<Seq<char>>,
    d: int,
    t: int,
    i: int,
    j: int,
)
    requires
        0 <= t <= d,
        on_diagonal(a, b, d, t, i, j),
        i == a.len() || j == b.len(),
    ensures
        suffix_distance(a, b, i, j) <= d,
{
}

/// The point `(w, jw)` that `slide` reaches from a start `(c, jc)` is
/// the frontier of its diagonal, if the start is within distance `d` and
/// lies no lower than the frontiers of round `d - 1` allow.
proof fn lemma_frontier_found(
    a: Seq<Seq<char>>,
    b: Seq<Seq<char>>,
    d: int,
    t: int,
    earlier: Seq<usize>,
    c: int,
    jc: int,
    w: int,
    jw: int,
)
    requires
        0 <= t <= d,
        d > 0 ==> is_round(a, b, d - 1, earlier),
        on_diagonal(a, b, d, t, c, jc),
        on_diagonal(a, b, d, t, w, jw),
        w <= c,
        suffix_distance(a, b, c, jc) <= d,
        suffix_distance(a, b, w, jw) == suffix_distance(a, b, c, jc),
        w == 0 || jw == 0 || a[w - 1] != b[jw - 1],
        t < d ==> c == 0 || jc == 0 || c + 1 <= earlier[t],
        t >= 1 ==> c == 0 || jc == 0 || c <= earlier[t - 1],
    ensures
        is_frontier(a, b, d, t, w),
{
    assert forall|i: int, j: int| #[trigger] on_diagonal(a, b, d, t, i, j) implies (suffix_distance(
        a,
        b,
        i,
        j,
    ) <= d <==> w <= i) by {
        if w <= i {
            lemma_diagonal_run(a, b, w, jw, i - w);
        } else {
            // The point just above the frontier is too far, and so is all above it.
            assert(w > 0 && jw > 0);
            lemma_diagonal_run(a, b, i, j, w - 1 - i);
            lemma_distance_range(a, b, w, jw - 1);
            lemma_distance_range(a, b, w - 1, jw);
            if t < d {
                assert(on_diagonal(a, b, d - 1, t, w, jw - 1));
            }
            if t >= 1 {
                assert(on_diagonal(a, b, d - 1, t - 1, w - 1, jw));
            }
            assert(suffix_distance(a, b, w, jw - 1) > d - 1);
            assert(suffix_distance(a, b, w - 1, jw) > d - 1);
            assert(suffix_distance(a, b, w - 1, jw - 1) > d);
        }
    }
}

/// A point of diagonal `t` of round `d` is within distance `d` if it is
/// the diagonal's last point `(hi, jhi)`, or if the point below it or the
/// point beside it is within the frontiers of round `d - 1`.
proof fn lemma_start_is_near(
    a: Seq<Seq<char>>,
    b: Seq<Seq<char>>,
    d: int,
    t: int,
    earlier: Seq<usize>,
    hi: int,
    jhi: int,
    c: int,
    jc: int,
)
    requires
        0 <= t <= d,
        d > 0 ==> is_round(a, b, d - 1, earlier),
        on_diagonal(a, b, d, t, hi, jhi),
        hi == a.len() || jhi == b.len(),
        on_diagonal(a, b, d, t, c, jc),
        c == hi || (t < d && earlier[t] <= c + 1) || (t >= 1 && earlier[t - 1] <= c),
    ensures
        suffix_distance(a, b, c, jc) <= d,
{
    if c == hi {
        lemma_diagonal_end_is_near(a, b, d, t, hi, jhi);
    } else {
        assert(c < a.len() && jc < b.len());
        lemma_distance_neighbours(a, b, c, jc);
        if t < d && earlier[t] <= c + 1 {
            assert(is_frontier(a, b, d - 1, t, earlier[t] as int));
            assert(on_diagonal(a, b, d - 1, t, c + 1, jc));
        } else {
            assert(is_frontier(a, b, d - 1, t - 1, earlier[t - 1] as int));
            assert(on_diagonal(a, b, d - 1, t - 1, c, jc + 1));
        }
    }
}

/// Where the walk up diagonal `t` of round `d` starts: the first point,
/// from the top, that is the diagonal's last point or has a neighbour below
/// or beside it within the frontiers of round `d - 1`. `(hi, jhi)` is
/// the diagonal's last point.
fn walk_start(
    a: &[String],
    b: &[String],
    earlier: &Vec<usize>,
    d: usize,
    t: usize,
    hi: usize,
    jhi: usize,
) -> (start: (usize, usize))
    requires
        t <= d,
        d > 0 ==> is_round(a.deep_view(), b.deep_view(), d - 1, earlier@),
        on_diagonal(a.deep_view(), b.deep_view(), d as int, t as int, hi as int, jhi as int),
        hi == a.len() || jhi == b.len(),
    ensures
        on_diagonal(
            a.deep_view(),
            b.deep_view(),
            d as int,
            t as int,
            start.0 as int,
            start.1 as int,
        ),
        suffix_distance(a.deep_view(), b.deep_view(), start.0 as int, start.1 as int) <= d,
        t < d ==> start.0 == 0 || start.1 == 0 || start.0 + 1 <= earlier[t as int],
        t >= 1 ==> start.0 == 0 || start.1 == 0 || start.0 <= earlier[t - 1],
{
    let span: usize = if hi <= jhi {
        hi
    } else {
        jhi
    };
    let lo: usize = hi - span;
    let from_deletion: usize = if t < d {
        let below: usize = earlier[t];
        if below > lo {
            below - 1
        } else {
            lo
        }
    } else {
        hi
    };
    let from_insertion: usize = if t >= 1 {
        let beside: usize = earlier[t - 1];
        if beside > lo {
            beside
        } else {
            lo
        }
    } else {
        hi
    };
    let nearer: usize = if from_deletion < from_insertion {
        from_deletion
    } else {
        from_insertion
    };
    let c: usize = if nearer < hi {
        nearer
    } else {
        hi
    };
    let jc: usize = jhi - (hi - c);
    proof {
        lemma_start_is_near(
            a.deep_view(),
            b.deep_view(),
            d as int,
            t as int,
            earlier@,
            hi as int,
            jhi as int,
            c as int,
            jc as int,
        );
    }
    (c, jc)
}

/// The frontier of diagonal `t` in round `d`, from the frontiers of round
/// `d - 1`, and whether it is the start `(0, 0)` of the graph.
fn frontier_of(
    a: &[String],
    b: &[String],
    earlier: &Vec<usize>,
    d: usize,
    t: usize,
) -> (found: (usize, bool))
    requires
        t <= d,
        d > 0 ==> is_round(a.deep_view(), b.deep_view(), d - 1, earlier@),
    ensures
        is_frontier(a.deep_view(), b.deep_view(), d as int, t as int, found.0 as int),
        found.1 ==> on_diagonal(a.deep_view(), b.deep_view(), d as int, t as int, 0, 0)
            && suffix_distance(a.deep_view(), b.deep_view(), 0, 0) <= d,
        !found.1 && on_diagonal(a.deep_view(), b.deep_view(), d as int, t as int, 0, 0)
            ==> suffix_distance(a.deep_view(), b.deep_view(), 0, 0) > d,
{
    let ghost sa = a.deep_view();
    let ghost sb = b.deep_view();
    match diagonal_end(a, b, d, t) {
        None => (0, false),
        Some((hi, jhi)) => {
            let (c, jc) = walk_start(a, b, earlier, d, t, hi, jhi);
            let (w, jw) = slide(a, b, c, jc);
            proof {
                lemma_frontier_found(
                    sa,
                    sb,
                    d as int,
                    t as int,
                    earlier@,
                    c as int,
                    jc as int,
                    w as int,
                    jw as int,
                );
                assert(on_diagonal(sa, sb, d as int, t as int, w as int, jw as int));
            }
            (w, w == 0 && jw == 0)
        },
    }
}

/// If the distance between `a` and `b` is `d`, the start of the graph
/// lies on a diagonal of round `d`.
proof fn lemma_origin_diagonal(a: Seq<Seq<char>>, b: Seq<Seq<char>>, d: int) -> (t: int)
    requires
        suffix_distance(a, b, 0, 0) == d,
    ensures
        0 <= t <= d,
        on_diagonal(a, b, d, t, 0, 0),
{
    lemma_distance_range(a, b, 0, 0);
    (b.len() + d - a.len()) / 2
}

/// The frontiers of round `d`, from those of round `d - 1`, and the
/// diagonal on which the start of the graph is within distance `d`, if
/// there is one.
fn next_round(
    a: &[String],
    b: &[String],
    earlier: &Vec<usize>,
    d: usize,
) -> (found: (Vec<usize>, Option<usize>))
    requires
        d > 0 ==> is_round(a.deep_view(), b.deep_view(), d - 1, earlier@),
    ensures
        is_round(a.deep_view(), b.deep_view(), d as int, found.0@),
        match found.1 {
            Some(t) => {
                &&& t <= d
                &&& on_diagonal(a.deep_view(), b.deep_view(), d as int, t as int, 0, 0)
                &&& suffix_distance(a.deep_view(), b.deep_view(), 0, 0) <= d
            },
            None => suffix_distance(a.deep_view(), b.deep_view(), 0, 0) != d,
        },
{
    let ghost sa = a.deep_view();
    let ghost sb = b.deep_view();
    let mut row: Vec<usize> = Vec::new();
    let mut origin: Option<usize> = None;
    let mut t: usize = 0;
    while t <= d
        invariant
            t <= d + 1,
            row.len() == t,
            sa == a.deep_view(),
            sb == b.deep_view(),
            d > 0 ==> is_round(sa, sb, d - 1, earlier@),
            forall|k: int| 0 <= k < t ==> is_frontier(sa, sb, d as int, k, #[trigger] row[k] as int),
            match origin {
                Some(k) => {
                    &&& k <= d
                    &&& on_diagonal(sa, sb, d as int, k as int, 0, 0)
                    &&& suffix_distance(sa, sb, 0, 0) <= d
                },
                None => forall|k: int|
                    0 <= k < t && #[trigger] on_diagonal(sa, sb, d as int, k, 0, 0)
                        ==> suffix_distance(sa, sb, 0, 0) > d,
            },
        decreases d + 1 - t,
    {
        let (w, at_origin) = frontier_of(a, b, earlier, d, t);
        row.push(w);
        if at_origin {
            origin = Some(t);
        }
        t = row.len();
    }
    proof {
        if origin is None && suffix_distance(sa, sb, 0, 0) == d {
            lemma_origin_diagonal(sa, sb, d as int);
        }
    }
    (row, origin)
}

/// The frontiers of the rounds up to the distance between `a` and `b`,
/// and the diagonal of the last round on which the start of the graph
/// lies; or, where the distance is larger than `limit`, the frontiers of
/// the rounds up to `limit` and no diagonal.
pub(crate) fn rounds_to_origin(
    a: &[String],
    b: &[String],
    limit: usize,
) -> (found: (Vec<Vec<usize>>, Option<usize>))
    ensures
        are_rounds(a.deep_view(), b.deep_view(), found.0@),
        match found.1 {
            Some(t) => {
                &&& suffix_distance(a.deep_view(), b.deep_view(), 0, 0) <= limit
                &&& found.0.len() == suffix_distance(a.deep_view(), b.deep_view(), 0, 0) + 1
                &&& on_diagonal(
                    a.deep_view(),
                    b.deep_view(),
                    suffix_distance(a.deep_view(), b.deep_view(), 0, 0) as int,
                    t as int,
                    0,
                    0,
                )
            },
            None => {
                &&& suffix_distance(a.deep_view(), b.deep_view(), 0, 0) > limit
                &&& found.0.len() == limit + 1
            },
        },
{
    let ghost sa = a.deep_view();
    let ghost sb = b.deep_view();
    let mut rounds: Vec<Vec<usize>> = Vec::new();
    let none_earlier: Vec<usize> = Vec::new();
    let (row, found) = next_round(a, b, &none_earlier, 0);
    let mut origin = found;
    rounds.push(row);
    proof {
        lemma_distance_range(sa, sb, 0, 0);
    }
    while origin.is_none() && rounds.len() <= limit
        invariant
            sa == a.deep_view(),
            sb == b.deep_view(),
            1 <= rounds.len() <= limit + 1,
            are_rounds(sa, sb, rounds@),
            suffix_distance(sa, sb, 0, 0) <= a.len() + b.len(),
            match origin {
                Some(t) => {
                    &&& suffix_distance(sa, sb, 0, 0) == rounds.len() - 1
                    &&& on_diagonal(sa, sb, rounds.len() - 1, t as int, 0, 0)
                },
                None => suffix_distance(sa, sb, 0, 0) >= rounds.len(),
            },
        decreases a.len() + b.len() + 1 - rounds.len(),
    {
        let d: usize = rounds.len();
        let (row, found) = next_round(a, b, &rounds[d - 1], d);
        origin = found;
        rounds.push(row);
    }
    (rounds, origin)
}

/// Where the next two lines differ, the frontiers of the round before
/// tell whether a deletion is shortest, and either change leads to a point
/// of that round.
proof fn lemma_change_step(
    a: Seq<Seq<char>>,
    b: Seq<Seq<char>>,
    earlier: Seq<usize>,
    d: int,
    t: int,
    i: int,
    j: int,
)
    requires
        0 <= i <= a.len(),
        0 <= j <= b.len(),
        i < a.len() || j < b.len(),
        !lines_match(a, b, i, j),
        d == suffix_distance(a, b, i, j),
        on_diagonal(a, b, d, t, i, j),
        d >= 1 ==> is_round(a, b, d - 1, earlier),
    ensures
        d >= 1,
        deletion_is_shortest(a, b, i, j) <==> i < a.len() && t < d && earlier[t] <= i + 1,
        deletion_is_shortest(a, b, i, j) ==> on_diagonal(a, b, d - 1, t, i + 1, j),
        !deletion_is_shortest(a, b, i, j) ==> j < b.len() && t >= 1 && on_diagonal(
            a,
            b,
            d - 1,
            t - 1,
            i,
            j + 1,
        ) && suffix_distance(a, b, i, j + 1) == d - 1,
{
    lemma_distance_range(a, b, i, j);
    lemma_distance_neighbours(a, b, i, j);
    if i < a.len() {
        lemma_distance_range(a, b, i + 1, j);
    }
    if j < b.len() {
        lemma_distance_range(a, b, i, j + 1);
    }
    if i < a.len() && t < d {
        assert(is_frontier(a, b, d - 1, t, earlier[t] as int));
        assert(on_diagonal(a, b, d - 1, t, i + 1, j));
    }
}

/// Walks from the start of the graph to its end along the chosen script,
/// led by the frontiers of all rounds up to the distance: `start` is the
/// diagonal of the last round on which the start of the graph lies.
pub(crate) fn follow(
    a: &[String],
    b: &[String],
    rounds: &Vec<Vec<usize>>,
    start: usize,
) -> (script: Vec<DiffOp>)
    requires
        are_rounds(a.deep_view(), b.deep_view(), rounds@),
        rounds.len() == edit_distance(a.deep_view(), b.deep_view()) + 1,
        on_diagonal(
            a.deep_view(),
            b.deep_view(),
            edit_distance(a.deep_view(), b.deep_view()) as int,
            start as int,
            0,
            0,
        ),
    ensures
        script.deep_view() == diff_script(a.deep_view(), b.deep_view()),
{
    let ghost sa = a.deep_view();
    let ghost sb = b.deep_view();
    let n: usize = a.len();
    let m: usize = b.len();
    let mut script: Vec<DiffOp> = Vec::new();
    let mut i: usize = 0;
    let mut j: usize = 0;
    let mut d: usize = rounds.len() - 1;
    let mut t: usize = start;
    proof {
        assert(script.deep_view() + script_from(sa, sb, 0, 0) =~= diff_script(sa, sb));
    }
    while i < n || j < m
        invariant
            sa == a.deep_view(),
            sb == b.deep_view(),
            n == a.len(),
            m == b.len(),
            i <= n,
            j <= m,
            d < rounds.len(),
            are_rounds(sa, sb, rounds@),
            d == suffix_distance(sa, sb, i as int, j as int),
            on_diagonal(sa, sb, d as int, t as int, i as int, j as int),
            script.deep_view() + script_from(sa, sb, i as int, j as int) == diff_script(sa, sb),
        decreases (n - i) + (m - j),
    {
        let ghost done = script.deep_view();
        let ghost ahead = script_from(sa, sb, i as int, j as int);
        if i < n && j < m && same_line(a, b, i, j) {
            proof {
                lemma_match_is_free(sa, sb, i as int, j as int);
            }
            script.push(DiffOp { kind: DiffKind::Equal, line: a[i].clone() });
            i = i + 1;
            j = j + 1;
            proof {
                assert(script.deep_view() =~= done.push(keep(sa[i - 1])));
                assert(script.deep_view() + script_from(sa, sb, i as int, j as int) =~= done
                    + ahead);
            }
        } else {
            proof {
                let earlier = if d >= 1 {
                    rounds@[d - 1]@
                } else {
                    Seq::<usize>::empty()
                };
                lemma_change_step(sa, sb, earlier, d as int, t as int, i as int, j as int);
            }
            let by_deletion: bool = i < n && t < d && rounds[d - 1][t] <= i + 1;
            if by_deletion {
                script.push(DiffOp { kind: DiffKind::Delete, line: a[i].clone() });
                i = i + 1;
                d = d - 1;
                proof {
                    assert(script.deep_view() =~= done.push(delete(sa[i - 1])));
                    assert(script.deep_view() + script_from(sa, sb, i as int, j as int) =~= done
                        + ahead);
                }
            } else {
                script.push(DiffOp { kind: DiffKind::Insert, line: b[j].clone() });
                j = j + 1;
                d = d - 1;
                t = t - 1;
                proof {
                    assert(script.deep_view() =~= done.push(insert(sb[j - 1])));
                    assert(script.deep_view() + script_from(sa, sb, i as int, j as int) =~= done
                        + ahead);
                }
            }
        }
    }
    proof {
        assert(script.deep_view() + script_from(sa, sb, i as int, j as int)
            =~= script.deep_view());
    }
    script
}

} // verus!
