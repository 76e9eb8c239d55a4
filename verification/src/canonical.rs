//! The one shortest edit script that a diff returns, among the many that
//! two line sequences with repeated lines may have.

use vstd::prelude::*;
use crate::script::{Edit, keep, delete, insert, all_kept, all_deleted, all_inserted,
    change_count, is_diff_of, is_shortest_diff_of, original_side, modified_side,
    lemma_script_cons, lemma_script_empty};
use crate::distance::{suffix_distance, edit_distance, lemma_distance_neighbours,
    lemma_match_is_free, lemma_script_cost_at_least_distance};

verus! {

/// At `(i, j)` the next lines of both sequences are equal.
pub open spec fn lines_match(a: Seq<Seq<char>>, b: Seq<Seq<char>>, i: int, j: int) -> bool {
    0 <= i < a.len() && 0 <= j < b.len() && a[i] == b[j]
}

/// At `(i, j)` some shortest script of the suffixes starts by deleting `a[i]`.
pub open spec fn deletion_is_shortest(a: Seq<Seq<char>>, b: Seq<Seq<char>>, i: int, j: int) -> bool {
    0 <= i < a.len() && suffix_distance(a, b, i, j) == 1 + suffix_distance(a, b, i + 1, j)
}

/// The script that turns the lines of `a` from `i` on into those of `b`
/// from `j` on, chosen by these rules: where the next two lines are equal
/// they are kept; otherwise the next line of `a` is deleted if a shortest
/// script can start so; otherwise the next line of `b` is inserted.
pub open spec fn script_from(a: Seq<Seq<char>>, b: Seq<Seq<char>>, i: int, j: int) -> Seq<Edit>
    recommends
        0 <= i <= a.len(),
        0 <= j <= b.len(),
    decreases a.len() - i + b.len() - j,
{
    if i < 0 || j < 0 || i > a.len() || j > b.len() {
        Seq::empty()
    } else if lines_match(a, b, i, j) {
        seq![keep(a[i])] + script_from(a, b, i + 1, j + 1)
    } else if deletion_is_shortest(a, b, i, j) {
        seq![delete(a[i])] + script_from(a, b, i + 1, j)
    } else if j < b.len() {
        seq![insert(b[j])] + script_from(a, b, i, j + 1)
    } else {
        Seq::empty()
    }
}

/// The diff of two line sequences.
pub open spec fn diff_script(a: Seq<Seq<char>>, b: Seq<Seq<char>>) -> Seq<Edit> {
    script_from(a, b, 0, 0)
}

/// The chosen script turns the one suffix into the other, and the number
/// of its changes is the distance between them.
pub proof fn lemma_script_from_is_shortest(a: Seq<Seq<char>>, b: Seq<Seq<char>>, i: int, j: int)
    requires
        0 <= i <= a.len(),
        0 <= j <= b.len(),
    ensures
        is_diff_of(script_from(a, b, i, j), a.skip(i), b.skip(j)),
        change_count(script_from(a, b, i, j)) == suffix_distance(a, b, i, j),
    decreases a.len() - i + b.len() - j,
{
    if lines_match(a, b, i, j) {
        let rest = script_from(a, b, i + 1, j + 1);
        lemma_script_from_is_shortest(a, b, i + 1, j + 1);
        lemma_script_cons(keep(a[i]), rest);
        lemma_match_is_free(a, b, i, j);
        assert(a.skip(i) =~= seq![a[i]] + a.skip(i + 1));
        assert(b.skip(j) =~= seq![b[j]] + b.skip(j + 1));
    } else if deletion_is_shortest(a, b, i, j) {
        let rest = script_from(a, b, i + 1, j);
        lemma_script_from_is_shortest(a, b, i + 1, j);
        lemma_script_cons(delete(a[i]), rest);
        assert(a.skip(i) =~= seq![a[i]] + a.skip(i + 1));
    } else if j < b.len() {
        let rest = script_from(a, b, i, j + 1);
        lemma_script_from_is_shortest(a, b, i, j + 1);
        lemma_script_cons(insert(b[j]), rest);
        assert(b.skip(j) =~= seq![b[j]] + b.skip(j + 1));
    } else {
        lemma_script_empty();
        assert(a.skip(i) =~= Seq::<Seq<char>>::empty());
        assert(b.skip(j) =~= Seq::<Seq<char>>::empty());
    }
}

/// The distance is the least number of changes: the chosen script between
/// two suffixes has that many, and no script between them has fewer.
pub proof fn lemma_distance_is_least(a: Seq<Seq<char>>, b: Seq<Seq<char>>, i: int, j: int)
    requires
        0 <= i <= a.len(),
        0 <= j <= b.len(),
    ensures
        change_count(script_from(a, b, i, j)) == suffix_distance(a, b, i, j),
        is_shortest_diff_of(script_from(a, b, i, j), a.skip(i), b.skip(j)),
{
    lemma_script_from_is_shortest(a, b, i, j);
    assert forall|other: Seq<Edit>| #[trigger]
        is_diff_of(other, a.skip(i), b.skip(j)) implies change_count(script_from(a, b, i, j))
        <= change_count(other) by {
        lemma_script_cost_at_least_distance(a, b, i, j, other);
    }
}

/// A deletion is shortest at `(i, j)` exactly if some shortest script
/// between the two suffixes begins by deleting `a[i]`.
pub proof fn lemma_deletion_is_shortest(a: Seq<Seq<char>>, b: Seq<Seq<char>>, i: int, j: int)
    requires
        0 <= i < a.len(),
        0 <= j <= b.len(),
    ensures
        deletion_is_shortest(a, b, i, j) <==> exists|script: Seq<Edit>|
            #[trigger] is_shortest_diff_of(script, a.skip(i), b.skip(j)) && script.len() > 0
                && script[0] == delete(a[i]),
{
    lemma_distance_is_least(a, b, i, j);
    lemma_distance_is_least(a, b, i + 1, j);
    assert(a.skip(i) =~= seq![a[i]] + a.skip(i + 1));
    if deletion_is_shortest(a, b, i, j) {
        let rest = script_from(a, b, i + 1, j);
        let script = seq![delete(a[i])] + rest;
        lemma_script_cons(delete(a[i]), rest);
        assert forall|other: Seq<Edit>| #[trigger]
            is_diff_of(other, a.skip(i), b.skip(j)) implies change_count(script) <= change_count(
            other,
        ) by {
            lemma_script_cost_at_least_distance(a, b, i, j, other);
        }
        assert(is_shortest_diff_of(script, a.skip(i), b.skip(j)) && script.len() > 0 && script[0]
            == delete(a[i]));
    }
    if exists|script: Seq<Edit>|
        #[trigger] is_shortest_diff_of(script, a.skip(i), b.skip(j)) && script.len() > 0
            && script[0] == delete(a[i]) {
        let script = choose|script: Seq<Edit>|
            #[trigger] is_shortest_diff_of(script, a.skip(i), b.skip(j)) && script.len() > 0
                && script[0] == delete(a[i]);
        let rest = script.drop_first();
        assert(script =~= seq![delete(a[i])] + rest);
        lemma_script_cons(delete(a[i]), rest);
        assert(original_side(rest) =~= a.skip(i).drop_first());
        assert(a.skip(i).drop_first() =~= a.skip(i + 1));
        lemma_script_cost_at_least_distance(a, b, i + 1, j, rest);
        lemma_distance_neighbours(a, b, i, j);
    }
}

/// The diff of `a` and `b` reproduces `a` by what it keeps and deletes and
/// `b` by what it keeps and inserts.
pub proof fn lemma_diff_reproduces_both(a: Seq<Seq<char>>, b: Seq<Seq<char>>)
    ensures
        original_side(diff_script(a, b)) == a,
        modified_side(diff_script(a, b)) == b,
{
    lemma_script_from_is_shortest(a, b, 0, 0);
    assert(a.skip(0) =~= a);
    assert(b.skip(0) =~= b);
}

/// The diff of `a` and `b` has as many deletions and insertions as the
/// distance between them, and no script that turns `a` into `b` has fewer.
pub proof fn lemma_diff_is_minimal(a: Seq<Seq<char>>, b: Seq<Seq<char>>)
    ensures
        change_count(diff_script(a, b)) == edit_distance(a, b),
        is_shortest_diff_of(diff_script(a, b), a, b),
{
    lemma_script_from_is_shortest(a, b, 0, 0);
    assert(a.skip(0) =~= a);
    assert(b.skip(0) =~= b);
    assert forall|other: Seq<Edit>| #[trigger] is_diff_of(other, a, b) implies change_count(
        diff_script(a, b),
    ) <= change_count(other) by {
        lemma_script_cost_at_least_distance(a, b, 0, 0, other);
    }
}

/// From `i` on, the diff of a sequence with itself keeps every line.
proof fn lemma_script_from_same(a: Seq<Seq<char>>, i: int)
    requires
        0 <= i <= a.len(),
    ensures
        script_from(a, a, i, i) == all_kept(a.skip(i)),
    decreases a.len() - i,
{
    if i < a.len() {
        lemma_script_from_same(a, i + 1);
        assert(a.skip(i) =~= seq![a[i]] + a.skip(i + 1));
    }
}

/// The diff of a sequence with itself keeps every line, in order.
pub proof fn lemma_diff_of_same(a: Seq<Seq<char>>)
    ensures
        diff_script(a, a) == all_kept(a),
{
    lemma_script_from_same(a, 0);
    assert(a.skip(0) =~= a);
}

/// From `j` on, the diff of nothing with `b` inserts every line.
proof fn lemma_script_from_only_inserts(b: Seq<Seq<char>>, j: int)
    requires
        0 <= j <= b.len(),
    ensures
        script_from(Seq::empty(), b, 0, j) == all_inserted(b.skip(j)),
    decreases b.len() - j,
{
    if j < b.len() {
        lemma_script_from_only_inserts(b, j + 1);
        assert(b.skip(j) =~= seq![b[j]] + b.skip(j + 1));
    }
}

/// The diff of the empty sequence with `b` inserts every line of `b`, in order.
pub proof fn lemma_diff_from_empty(b: Seq<Seq<char>>)
    ensures
        diff_script(Seq::empty(), b) == all_inserted(b),
{
    lemma_script_from_only_inserts(b, 0);
    assert(b.skip(0) =~= b);
}

/// From `i` on, the diff of `a` with nothing deletes every line.
proof fn lemma_script_from_only_deletes(a: Seq<Seq<char>>, i: int)
    requires
        0 <= i <= a.len(),
    ensures
        script_from(a, Seq::empty(), i, 0) == all_deleted(a.skip(i)),
    decreases a.len() - i,
{
    if i < a.len() {
        lemma_script_from_only_deletes(a, i + 1);
        assert(a.skip(i) =~= seq![a[i]] + a.skip(i + 1));
    }
}

/// The diff of `a` with the empty sequence deletes every line of `a`, in order.
pub proof fn lemma_diff_to_empty(a: Seq<Seq<char>>)
    ensures
        diff_script(a, Seq::empty()) == all_deleted(a),
{
    lemma_script_from_only_deletes(a, 0);
    assert(a.skip(0) =~= a);
}

} // verus!
