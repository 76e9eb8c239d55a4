//! The line differ: from two texts, or two sequences of lines, to their diff.

use vstd::prelude::*;
use vstd::pervasive::unreached;
use crate::script::{DiffOp, Edit, all_kept, all_deleted, all_inserted, change_count, is_diff_of,
    original_side, modified_side};
use crate::distance::edit_distance;
use crate::canonical::{diff_script, lemma_diff_reproduces_both, lemma_diff_is_minimal,
    lemma_diff_of_same, lemma_diff_from_empty, lemma_diff_to_empty};
use crate::frontier::{rounds_to_origin, follow};
use crate::lines::{lines_of, split_lines};
use crate::rules::{obeys_rules, deletions_lead, lemma_diff_obeys_rules,
    lemma_diff_deletions_lead};

verus! {

/// The diff of two sequences of lines.
///
/// The result reproduces `original` by its `Equal` and `Delete` steps and
/// `modified` by its `Equal` and `Insert` steps, and no script that does so
/// has fewer `Delete` and `Insert` steps. Among the scripts of that kind it
/// is the one that keeps two equal lines wherever they stand next, and
/// that deletes before it inserts wherever both lead to a shortest script.
pub fn diff_lines(original: &[String], modified: &[String]) -> (script: Vec<DiffOp>)
    ensures
        script.deep_view() == diff_script(original.deep_view(), modified.deep_view()),
        original_side(script.deep_view()) == original.deep_view(),
        modified_side(script.deep_view()) == modified.deep_view(),
        change_count(script.deep_view()) == edit_distance(
            original.deep_view(),
            modified.deep_view(),
        ),
        forall|other: Seq<Edit>| #[trigger]
            is_diff_of(other, original.deep_view(), modified.deep_view()) ==> change_count(
                script.deep_view(),
            ) <= change_count(other),
        original.deep_view() == modified.deep_view() ==> script.deep_view() == all_kept(
            original.deep_view(),
        ),
        original.len() == 0 ==> script.deep_view() == all_inserted(modified.deep_view()),
        modified.len() == 0 ==> script.deep_view() == all_deleted(original.deep_view()),
        obeys_rules(script.deep_view(), original.deep_view(), modified.deep_view()),
        deletions_lead(script.deep_view()),
{
    let (rounds, origin) = rounds_to_origin(original, modified, usize::MAX);
    let script = match origin {
        Some(start) => follow(original, modified, &rounds, start),
        None => {
            // More rounds than a vector can hold: there is no such table.
            unreached()
        },
    };
    proof {
        let a = original.deep_view();
        let b = modified.deep_view();
        lemma_diff_reproduces_both(a, b);
        lemma_diff_obeys_rules(a, b);
        lemma_diff_deletions_lead(a, b);
        lemma_diff_is_minimal(a, b);
        if a == b {
            lemma_diff_of_same(a);
        }
        if original.len() == 0 {
            assert(a =~= Seq::<Seq<char>>::empty());
            lemma_diff_from_empty(b);
        }
        if modified.len() == 0 {
            assert(b =~= Seq::<Seq<char>>::empty());
            lemma_diff_to_empty(a);
        }
    }
    script
}

/// The diff of two sequences of lines, if they are within `limit`
/// deletions and insertions of each other; `None` if they are further
/// apart. The search then ends after `limit` rounds, which bounds its time
/// and its memory whatever the two sequences hold: without a limit the
/// search takes time in proportion to the distance times the number of
/// lines, and memory in proportion to the square of the distance.
pub fn diff_lines_within(
    original: &[String],
    modified: &[String],
    limit: usize,
) -> (found: Option<Vec<DiffOp>>)
    ensures
        found is Some <==> edit_distance(original.deep_view(), modified.deep_view()) <= limit,
        found matches Some(script) ==> script.deep_view() == diff_script(
            original.deep_view(),
            modified.deep_view(),
        ),
{
    let (rounds, origin) = rounds_to_origin(original, modified, limit);
    match origin {
        Some(start) => Some(follow(original, modified, &rounds, start)),
        None => None,
    }
}

/// The line-level diff of two texts: the diff of their line sequences.
pub fn compute_diff(original: &str, modified: &str) -> (script: Vec<DiffOp>)
    ensures
        script.deep_view() == diff_script(lines_of(original@), lines_of(modified@)),
        original_side(script.deep_view()) == lines_of(original@),
        modified_side(script.deep_view()) == lines_of(modified@),
        change_count(script.deep_view()) == edit_distance(
            lines_of(original@),
            lines_of(modified@),
        ),
        forall|other: Seq<Edit>| #[trigger]
            is_diff_of(other, lines_of(original@), lines_of(modified@)) ==> change_count(
                script.deep_view(),
            ) <= change_count(other),
        original@ == modified@ ==> script.deep_view() == all_kept(lines_of(original@)),
        original@.len() == 0 ==> script.deep_view() == all_inserted(lines_of(modified@)),
        modified@.len() == 0 ==> script.deep_view() == all_deleted(lines_of(original@)),
        original@.len() == 0 && modified@.len() == 0 ==> script.len() == 0,
        obeys_rules(script.deep_view(), lines_of(original@), lines_of(modified@)),
        deletions_lead(script.deep_view()),
{
    let a = split_lines(original);
    let b = split_lines(modified);
    diff_lines(a.as_slice(), b.as_slice())
}

/// The line-level diff of two texts, if their line sequences are within
/// `limit` deletions and insertions of each other; `None` if they are
/// further apart.
pub fn compute_diff_within(original: &str, modified: &str, limit: usize) -> (found: Option<
    Vec<DiffOp>,
>)
    ensures
        found is Some <==> edit_distance(lines_of(original@), lines_of(modified@)) <= limit,
        found matches Some(script) ==> script.deep_view() == diff_script(
            lines_of(original@),
            lines_of(modified@),
        ),
{
    let a = split_lines(original);
    let b = split_lines(modified);
    diff_lines_within(a.as_slice(), b.as_slice(), limit)
}

} // verus!
