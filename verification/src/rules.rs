//! The rules that single out the diff among all edit scripts of two line
//! sequences: it is a shortest script, it keeps two equal lines wherever
//! they stand next, and it deletes rather than inserts wherever both
//! begin a shortest script. Exactly one script obeys them.

use vstd::prelude::*;
use crate::script::{Edit, DiffKind, keep, delete, insert, in_original, in_modified, is_change,
    change_count, is_diff_of, is_shortest_diff_of, original_side, modified_side,
    lemma_script_cons, lemma_script_empty};
use crate::distance::{suffix_distance, lemma_distance_neighbours, lemma_match_is_free,
    lemma_script_cost_at_least_distance};
use crate::canonical::{lines_match, deletion_is_shortest, script_from, diff_script,
    lemma_diff_is_minimal};

verus! {

/// The number of lines of the original that the first `p` steps of a
/// script have kept or deleted.
pub open spec fn original_reached(script: Seq<Edit>, p: int) -> int {
    original_side(script.take(p)).len() as int
}

/// The number of lines of the modified sequence that the first `p` steps
/// of a script have kept or inserted.
pub open spec fn modified_reached(script: Seq<Edit>, p: int) -> int {
    modified_side(script.take(p)).len() as int
}

/// Started at `(i, j)`, the script deletes or inserts a line only where
/// the two lines that stand next are not equal.
pub open spec fn keeps_matches_from(
    script: Seq<Edit>,
    a: Seq<Seq<char>>,
    b: Seq<Seq<char>>,
    i: int,
    j: int,
) -> bool {
    forall|p: int|
        0 <= p < script.len() && is_change(#[trigger] script[p]) ==> !lines_match(
            a,
            b,
            i + original_reached(script, p),
            j + modified_reached(script, p),
        )
}

/// Started at `(i, j)`, the script inserts a line only where no shortest
/// script of what is left begins with a deletion.
pub open spec fn deletes_first_from(
    script: Seq<Edit>,
    a: Seq<Seq<char>>,
    b: Seq<Seq<char>>,
    i: int,
    j: int,
) -> bool {
    forall|p: int|
        0 <= p < script.len() && (#[trigger] script[p]).kind == DiffKind::Insert
            ==> !deletion_is_shortest(
            a,
            b,
            i + original_reached(script, p),
            j + modified_reached(script, p),
        )
}

/// `script` is a shortest script from `a` to `b` that keeps two equal
/// lines wherever they stand next and deletes before it inserts wherever
/// both begin a shortest script.
pub open spec fn obeys_rules(script: Seq<Edit>, a: Seq<Seq<char>>, b: Seq<Seq<char>>) -> bool {
    &&& is_shortest_diff_of(script, a, b)
    &&& keeps_matches_from(script, a, b, 0, 0)
    &&& deletes_first_from(script, a, b, 0, 0)
}

/// What a script has reached after its first step, and after `p` steps more.
proof fn lemma_reached_cons(e: Edit, rest: Seq<Edit>, p: int)
    requires
        0 <= p <= rest.len(),
    ensures
        original_reached(seq![e] + rest, 0) == 0,
        modified_reached(seq![e] + rest, 0) == 0,
        original_reached(seq![e] + rest, p + 1) == original_reached(rest, p) + (if in_original(e) {
            1int
        } else {
            0int
        }),
        modified_reached(seq![e] + rest, p + 1) == modified_reached(rest, p) + (if in_modified(e) {
            1int
        } else {
            0int
        }),
        p < rest.len() ==> (seq![e] + rest)[p + 1] == rest[p],
{
    let script = seq![e] + rest;
    assert(script.take(0) =~= Seq::<Edit>::empty());
    lemma_script_empty();
    assert(script.take(p + 1) =~= seq![e] + rest.take(p));
    lemma_script_cons(e, rest.take(p));
}

/// The rules hold of a script from `(i, j)` if they hold of its first step
/// there and of the steps after it from where that step leads.
proof fn lemma_rules_cons(
    e: Edit,
    rest: Seq<Edit>,
    a: Seq<Seq<char>>,
    b: Seq<Seq<char>>,
    i: int,
    j: int,
)
    requires
        is_change(e) ==> !lines_match(a, b, i, j),
        e.kind == DiffKind::Insert ==> !deletion_is_shortest(a, b, i, j),
        keeps_matches_from(
            rest,
            a,
            b,
            i + (if in_original(e) {
                1int
            } else {
                0int
            }),
            j + (if in_modified(e) {
                1int
            } else {
                0int
            }),
        ),
        deletes_first_from(
            rest,
            a,
            b,
            i + (if in_original(e) {
                1int
            } else {
                0int
            }),
            j + (if in_modified(e) {
                1int
            } else {
                0int
            }),
        ),
    ensures
        keeps_matches_from(seq![e] + rest, a, b, i, j),
        deletes_first_from(seq![e] + rest, a, b, i, j),
{
    let script = seq![e] + rest;
    assert forall|p: int| 0 <= p < script.len() implies (is_change(#[trigger] script[p])
        ==> !lines_match(
        a,
        b,
        i + original_reached(script, p),
        j + modified_reached(script, p),
    )) && (script[p].kind == DiffKind::Insert ==> !deletion_is_shortest(
        a,
        b,
        i + original_reached(script, p),
        j + modified_reached(script, p),
    )) by {
        if p == 0 {
            lemma_reached_cons(e, rest, 0);
        } else {
            lemma_reached_cons(e, rest, p - 1);
            assert(script[p] == rest[p - 1]);
        }
    }
}

/// The rules hold of the steps after the first, from where that step
/// leads, if they hold of the whole script.
proof fn lemma_rules_rest(
    e: Edit,
    rest: Seq<Edit>,
    a: Seq<Seq<char>>,
    b: Seq<Seq<char>>,
    i: int,
    j: int,
)
    requires
        keeps_matches_from(seq![e] + rest, a, b, i, j),
        deletes_first_from(seq![e] + rest, a, b, i, j),
    ensures
        is_change(e) ==> !lines_match(a, b, i, j),
        e.kind == DiffKind::Insert ==> !deletion_is_shortest(a, b, i, j),
        keeps_matches_from(
            rest,
            a,
            b,
            i + (if in_original(e) {
                1int
            } else {
                0int
            }),
            j + (if in_modified(e) {
                1int
            } else {
                0int
            }),
        ),
        deletes_first_from(
            rest,
            a,
            b,
            i + (if in_original(e) {
                1int
            } else {
                0int
            }),
            j + (if in_modified(e) {
                1int
            } else {
                0int
            }),
        ),
{
    let script = seq![e] + rest;
    let i1 = i + (if in_original(e) {
        1int
    } else {
        0int
    });
    let j1 = j + (if in_modified(e) {
        1int
    } else {
        0int
    });
    lemma_reached_cons(e, rest, 0);
    assert(script[0] == e);
    assert forall|p: int| 0 <= p < rest.len() implies (is_change(#[trigger] rest[p])
        ==> !lines_match(a, b, i1 + original_reached(rest, p), j1 + modified_reached(rest, p)))
        && (rest[p].kind == DiffKind::Insert ==> !deletion_is_shortest(
        a,
        b,
        i1 + original_reached(rest, p),
        j1 + modified_reached(rest, p),
    )) by {
        lemma_reached_cons(e, rest, p);
        assert(script[p + 1] == rest[p]);
    }
}

/// From any point on, the chosen script obeys the two rules of choice.
proof fn lemma_script_from_obeys(a: Seq<Seq<char>>, b: Seq<Seq<char>>, i: int, j: int)
    requires
        0 <= i <= a.len(),
        0 <= j <= b.len(),
    ensures
        keeps_matches_from(script_from(a, b, i, j), a, b, i, j),
        deletes_first_from(script_from(a, b, i, j), a, b, i, j),
    decreases a.len() - i + b.len() - j,
{
    if lines_match(a, b, i, j) {
        lemma_script_from_obeys(a, b, i + 1, j + 1);
        lemma_rules_cons(keep(a[i]), script_from(a, b, i + 1, j + 1), a, b, i, j);
    } else if deletion_is_shortest(a, b, i, j) {
        lemma_script_from_obeys(a, b, i + 1, j);
        lemma_rules_cons(delete(a[i]), script_from(a, b, i + 1, j), a, b, i, j);
    } else if j < b.len() {
        lemma_script_from_obeys(a, b, i, j + 1);
        lemma_rules_cons(insert(b[j]), script_from(a, b, i, j + 1), a, b, i, j);
    }
}

/// A shortest script between two suffixes that obeys the two rules of
/// choice is the chosen script.
proof fn lemma_rules_leave_no_choice(
    a: Seq<Seq<char>>,
    b: Seq<Seq<char>>,
    i: int,
    j: int,
    script: Seq<Edit>,
)
    requires
        0 <= i <= a.len(),
        0 <= j <= b.len(),
        is_diff_of(script, a.skip(i), b.skip(j)),
        change_count(script) == suffix_distance(a, b, i, j),
        keeps_matches_from(script, a, b, i, j),
        deletes_first_from(script, a, b, i, j),
    ensures
        script == script_from(a, b, i, j),
    decreases script.len(),
{
    if script.len() == 0 {
        assert(script =~= Seq::<Edit>::empty());
        lemma_script_empty();
        assert(a.skip(i).len() == 0);
        assert(b.skip(j).len() == 0);
    } else {
        let e = script[0];
        let rest = script.drop_first();
        assert(script =~= seq![e] + rest);
        lemma_script_cons(e, rest);
        lemma_rules_rest(e, rest, a, b, i, j);
        lemma_distance_neighbours(a, b, i, j);
        match e.kind {
            DiffKind::Equal => {
                assert(a.skip(i)[0] == e.line);
                assert(b.skip(j)[0] == e.line);
                assert(original_side(rest) =~= a.skip(i).drop_first());
                assert(modified_side(rest) =~= b.skip(j).drop_first());
                assert(a.skip(i).drop_first() =~= a.skip(i + 1));
                assert(b.skip(j).drop_first() =~= b.skip(j + 1));
                lemma_match_is_free(a, b, i, j);
                lemma_rules_leave_no_choice(a, b, i + 1, j + 1, rest);
                assert(e == keep(a[i]));
            },
            DiffKind::Delete => {
                assert(a.skip(i)[0] == e.line);
                assert(original_side(rest) =~= a.skip(i).drop_first());
                assert(a.skip(i).drop_first() =~= a.skip(i + 1));
                lemma_script_cost_at_least_distance(a, b, i + 1, j, rest);
                lemma_rules_leave_no_choice(a, b, i + 1, j, rest);
                assert(e == delete(a[i]));
            },
            DiffKind::Insert => {
                assert(b.skip(j)[0] == e.line);
                assert(modified_side(rest) =~= b.skip(j).drop_first());
                assert(b.skip(j).drop_first() =~= b.skip(j + 1));
                lemma_script_cost_at_least_distance(a, b, i, j + 1, rest);
                lemma_rules_leave_no_choice(a, b, i, j + 1, rest);
                assert(e == insert(b[j]));
            },
        }
    }
}

/// The diff of `a` and `b` obeys the rules.
pub proof fn lemma_diff_obeys_rules(a: Seq<Seq<char>>, b: Seq<Seq<char>>)
    ensures
        obeys_rules(diff_script(a, b), a, b),
{
    lemma_diff_is_minimal(a, b);
    lemma_script_from_obeys(a, b, 0, 0);
}

/// The rules leave no choice: a script that obeys them is the diff of `a`
/// and `b`.
pub proof fn lemma_rules_determine_diff(a: Seq<Seq<char>>, b: Seq<Seq<char>>, script: Seq<Edit>)
    requires
        obeys_rules(script, a, b),
    ensures
        script == diff_script(a, b),
{
    assert(a.skip(0) =~= a);
    assert(b.skip(0) =~= b);
    // A shortest script has exactly as many changes as the diff.
    lemma_diff_is_minimal(a, b);
    lemma_script_cost_at_least_distance(a, b, 0, 0, script);
    lemma_rules_leave_no_choice(a, b, 0, 0, script);
}

/// Any two scripts that obey the rules for the same two sequences are the
/// same script, step for step: the result is a function of the input.
pub proof fn lemma_rules_leave_one_script(
    a: Seq<Seq<char>>,
    b: Seq<Seq<char>>,
    first: Seq<Edit>,
    second: Seq<Edit>,
)
    requires
        obeys_rules(first, a, b),
        obeys_rules(second, a, b),
    ensures
        first == second,
{
    lemma_rules_determine_diff(a, b, first);
    lemma_rules_determine_diff(a, b, second);
}

/// Step `p` of the script is an insertion.
pub open spec fn inserts_at(script: Seq<Edit>, p: int) -> bool {
    0 <= p < script.len() && script[p].kind == DiffKind::Insert
}

/// Step `p` of the script is a deletion.
pub open spec fn deletes_at(script: Seq<Edit>, p: int) -> bool {
    0 <= p < script.len() && script[p].kind == DiffKind::Delete
}

/// In every run of changes the deletions stand before the insertions: no
/// insertion is directly followed by a deletion.
pub open spec fn deletions_lead(script: Seq<Edit>) -> bool {
    forall|p: int| #[trigger] inserts_at(script, p) ==> !deletes_at(script, p + 1)
}

/// The deletions lead in a script if they lead in the steps after the
/// first, and the first two steps are not an insertion and a deletion.
proof fn lemma_deletions_lead_cons(e: Edit, rest: Seq<Edit>)
    requires
        deletions_lead(rest),
        e.kind == DiffKind::Insert ==> !deletes_at(rest, 0),
    ensures
        deletions_lead(seq![e] + rest),
{
    let script = seq![e] + rest;
    assert forall|p: int| #[trigger] inserts_at(script, p) implies !deletes_at(script, p + 1) by {
        if p > 0 {
            assert(inserts_at(rest, p - 1));
        }
    }
}

/// From any point on, the deletions of the chosen script lead its runs of changes.
proof fn lemma_script_from_deletions_lead(a: Seq<Seq<char>>, b: Seq<Seq<char>>, i: int, j: int)
    requires
        0 <= i <= a.len(),
        0 <= j <= b.len(),
    ensures
        deletions_lead(script_from(a, b, i, j)),
    decreases a.len() - i + b.len() - j,
{
    if lines_match(a, b, i, j) {
        lemma_script_from_deletions_lead(a, b, i + 1, j + 1);
        lemma_deletions_lead_cons(keep(a[i]), script_from(a, b, i + 1, j + 1));
    } else if deletion_is_shortest(a, b, i, j) {
        lemma_script_from_deletions_lead(a, b, i + 1, j);
        lemma_deletions_lead_cons(delete(a[i]), script_from(a, b, i + 1, j));
    } else if j < b.len() {
        lemma_script_from_deletions_lead(a, b, i, j + 1);
        // Were a deletion shortest after this insertion, it was so before it.
        lemma_distance_neighbours(a, b, i, j);
        if i < a.len() {
            lemma_distance_neighbours(a, b, i + 1, j);
        }
        assert(!deletion_is_shortest(a, b, i, j + 1));
        lemma_deletions_lead_cons(insert(b[j]), script_from(a, b, i, j + 1));
    }
}

/// In the diff of `a` and `b` no insertion is directly followed by a deletion.
pub proof fn lemma_diff_deletions_lead(a: Seq<Seq<char>>, b: Seq<Seq<char>>)
    ensures
        deletions_lead(diff_script(a, b)),
{
    lemma_script_from_deletions_lead(a, b, 0, 0);
}

} // verus!
