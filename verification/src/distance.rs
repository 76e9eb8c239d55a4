//! The edit distance between two line sequences, where one step deletes or
//! inserts a whole line, and the facts about it that the search rests on.

use vstd::prelude::*;
use crate::script::{Edit, DiffKind, change_count, is_diff_of, original_side, modified_side,
    lemma_script_cons, lemma_script_empty};

verus! {

/// The smaller of two numbers.
pub open spec fn least(x: nat, y: nat) -> nat {
    if x <= y {
        x
    } else {
        y
    }
}

/// The fewest deletions and insertions that turn the lines of `a` from
/// position `i` on into the lines of `b` from position `j` on.
///
/// A step of the edit graph goes from `(i, j)` to `(i + 1, j)` by deleting
/// `a[i]`, to `(i, j + 1)` by inserting `b[j]`, both at cost 1, or, where
/// `a[i] == b[j]`, to `(i + 1, j + 1)` at no cost.
pub open spec fn suffix_distance(a: Seq<Seq<char>>, b: Seq<Seq<char>>, i: int, j: int) -> nat
    recommends
        0 <= i <= a.len(),
        0 <= j <= b.len(),
    decreases a.len() - i + b.len() - j,
{
    if i >= a.len() && j >= b.len() {
        0
    } else if i >= a.len() {
        (b.len() - j) as nat
    } else if j >= b.len() {
        (a.len() - i) as nat
    } else {
        let by_change = least(
            1 + suffix_distance(a, b, i + 1, j),
            1 + suffix_distance(a, b, i, j + 1),
        );
        if a[i] == b[j] {
            least(by_change, suffix_distance(a, b, i + 1, j + 1))
        } else {
            by_change
        }
    }
}

/// The edit distance between `a` and `b`.
pub open spec fn edit_distance(a: Seq<Seq<char>>, b: Seq<Seq<char>>) -> nat {
    suffix_distance(a, b, 0, 0)
}

/// Dropping the first line of either suffix changes the distance by at most one.
pub proof fn lemma_distance_neighbours(a: Seq<Seq<char>>, b: Seq<Seq<char>>, i: int, j: int)
    requires
        0 <= i <= a.len(),
        0 <= j <= b.len(),
    ensures
        i < a.len() ==> suffix_distance(a, b, i, j) <= 1 + suffix_distance(a, b, i + 1, j),
        i < a.len() ==> suffix_distance(a, b, i + 1, j) <= 1 + suffix_distance(a, b, i, j),
        j < b.len() ==> suffix_distance(a, b, i, j) <= 1 + suffix_distance(a, b, i, j + 1),
        j < b.len() ==> suffix_distance(a, b, i, j + 1) <= 1 + suffix_distance(a, b, i, j),
    decreases a.len() - i + b.len() - j,
{
    if i < a.len() && j < b.len() {
        lemma_distance_neighbours(a, b, i + 1, j);
        lemma_distance_neighbours(a, b, i, j + 1);
    }
}

/// Where the two next lines are equal, keeping them costs nothing: the
/// distance is that of the suffixes after them.
pub proof fn lemma_match_is_free(a: Seq<Seq<char>>, b: Seq<Seq<char>>, i: int, j: int)
    requires
        0 <= i < a.len(),
        0 <= j < b.len(),
        a[i] == b[j],
    ensures
        suffix_distance(a, b, i, j) == suffix_distance(a, b, i + 1, j + 1),
{
    lemma_distance_neighbours(a, b, i + 1, j);
    lemma_distance_neighbours(a, b, i, j + 1);
}

/// Along a diagonal the distance never grows.
pub proof fn lemma_diagonal_step(a: Seq<Seq<char>>, b: Seq<Seq<char>>, i: int, j: int)
    requires
        0 <= i < a.len(),
        0 <= j < b.len(),
    ensures
        suffix_distance(a, b, i + 1, j + 1) <= suffix_distance(a, b, i, j),
{
    lemma_distance_neighbours(a, b, i + 1, j);
    lemma_distance_neighbours(a, b, i, j + 1);
}

/// The distance is at least the difference of the two lengths left, at most
/// their sum, and even exactly when that sum is.
pub proof fn lemma_distance_range(a: Seq<Seq<char>>, b: Seq<Seq<char>>, i: int, j: int)
    requires
        0 <= i <= a.len(),
        0 <= j <= b.len(),
    ensures
        suffix_distance(a, b, i, j) >= (a.len() - i) - (b.len() - j),
        suffix_distance(a, b, i, j) >= (b.len() - j) - (a.len() - i),
        suffix_distance(a, b, i, j) <= (a.len() - i) + (b.len() - j),
        (suffix_distance(a, b, i, j) + (a.len() - i) + (b.len() - j)) % 2 == 0,
    decreases a.len() - i + b.len() - j,
{
    if i < a.len() && j < b.len() {
        lemma_distance_range(a, b, i + 1, j);
        lemma_distance_range(a, b, i, j + 1);
        lemma_distance_range(a, b, i + 1, j + 1);
    }
}

/// No script that turns the one suffix into the other has fewer changes
/// than the distance.
pub proof fn lemma_script_cost_at_least_distance(
    a: Seq<Seq<char>>,
    b: Seq<Seq<char>>,
    i: int,
    j: int,
    script: Seq<Edit>,
)
    requires
        0 <= i <= a.len(),
        0 <= j <= b.len(),
        is_diff_of(script, a.skip(i), b.skip(j)),
    ensures
        suffix_distance(a, b, i, j) <= change_count(script),
    decreases script.len(),
{
    if script.len() == 0 {
        assert(script =~= Seq::<Edit>::empty());
        lemma_script_empty();
        assert(a.skip(i).len() == 0);
        assert(b.skip(j).len() == 0);
    } else {
        let e = script[0];
        let rest = script.drop_first();
        assert(script =~= seq![e] + rest);
        lemma_script_cons(e, rest);
        match e.kind {
            DiffKind::Equal => {
                assert(a.skip(i)[0] == e.line);
                assert(b.skip(j)[0] == e.line);
                assert(original_side(rest) =~= a.skip(i).drop_first());
                assert(modified_side(rest) =~= b.skip(j).drop_first());
                assert(a.skip(i).drop_first() =~= a.skip(i + 1));
                assert(b.skip(j).drop_first() =~= b.skip(j + 1));
                lemma_script_cost_at_least_distance(a, b, i + 1, j + 1, rest);
                lemma_match_is_free(a, b, i, j);
            },
            DiffKind::Delete => {
                assert(a.skip(i)[0] == e.line);
                assert(original_side(rest) =~= a.skip(i).drop_first());
                assert(a.skip(i).drop_first() =~= a.skip(i + 1));
                lemma_script_cost_at_least_distance(a, b, i + 1, j, rest);
                lemma_distance_neighbours(a, b, i, j);
            },
            DiffKind::Insert => {
                assert(b.skip(j)[0] == e.line);
                assert(modified_side(rest) =~= b.skip(j).drop_first());
                assert(b.skip(j).drop_first() =~= b.skip(j + 1));
                lemma_script_cost_at_least_distance(a, b, i, j + 1, rest);
                lemma_distance_neighbours(a, b, i, j);
            },
        }
    }
}

} // verus!
