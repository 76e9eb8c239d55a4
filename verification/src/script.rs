//! Edit scripts: what a diff is made of, and what it means for one to be
//! a diff of two line sequences.

use vstd::prelude::*;

verus! {

/// How one line of a diff relates to the two texts.
#[derive(Clone, Copy, Debug, PartialEq, Eq, Hash, Structural)]
pub enum DiffKind {
    /// The line stands in both texts at this position of the alignment.
    Equal,
    /// The line stands only in the modified text.
    Insert,
    /// The line stands only in the original text.
    Delete,
}

/// One line of a diff: its kind and the line's content, without terminator.
#[derive(Clone, Debug, PartialEq, Eq, Hash)]
pub struct DiffOp {
    pub kind: DiffKind,
    pub line: String,
}

/// The mathematical value of a `DiffOp`: one step of an edit script.
pub struct Edit {
    pub kind: DiffKind,
    pub line: Seq<char>,
}

impl View for DiffOp {
    type V = Edit;

    open spec fn view(&self) -> Edit {
        Edit { kind: self.kind, line: self.line@ }
    }
}

impl DeepView for DiffOp {
    type V = Edit;

    open spec fn deep_view(&self) -> Edit {
        self@
    }
}

/// The step that keeps `line`.
pub open spec fn keep(line: Seq<char>) -> Edit {
    Edit { kind: DiffKind::Equal, line }
}

/// The step that deletes `line`.
pub open spec fn delete(line: Seq<char>) -> Edit {
    Edit { kind: DiffKind::Delete, line }
}

/// The step that inserts `line`.
pub open spec fn insert(line: Seq<char>) -> Edit {
    Edit { kind: DiffKind::Insert, line }
}

/// The script that keeps every line of `lines`, in order.
pub open spec fn all_kept(lines: Seq<Seq<char>>) -> Seq<Edit> {
    lines.map_values(|line: Seq<char>| keep(line))
}

/// The script that deletes every line of `lines`, in order.
pub open spec fn all_deleted(lines: Seq<Seq<char>>) -> Seq<Edit> {
    lines.map_values(|line: Seq<char>| delete(line))
}

/// The script that inserts every line of `lines`, in order.
pub open spec fn all_inserted(lines: Seq<Seq<char>>) -> Seq<Edit> {
    lines.map_values(|line: Seq<char>| insert(line))
}

/// The step's line is a line of the original sequence.
pub open spec fn in_original(e: Edit) -> bool {
    e.kind != DiffKind::Insert
}

/// The step's line is a line of the modified sequence.
pub open spec fn in_modified(e: Edit) -> bool {
    e.kind != DiffKind::Delete
}

/// The step deletes or inserts a line.
pub open spec fn is_change(e: Edit) -> bool {
    e.kind != DiffKind::Equal
}

/// The lines of the `Equal` and `Delete` steps of a script, in order.
pub open spec fn original_side(script: Seq<Edit>) -> Seq<Seq<char>> {
    script.filter(|e: Edit| in_original(e)).map_values(|e: Edit| e.line)
}

/// The lines of the `Equal` and `Insert` steps of a script, in order.
pub open spec fn modified_side(script: Seq<Edit>) -> Seq<Seq<char>> {
    script.filter(|e: Edit| in_modified(e)).map_values(|e: Edit| e.line)
}

/// The number of `Delete` and `Insert` steps of a script.
pub open spec fn change_count(script: Seq<Edit>) -> nat {
    script.filter(|e: Edit| is_change(e)).len()
}

/// `script` turns `original` into `modified`: what it keeps and deletes is
/// the original, line for line, and what it keeps and inserts is the
/// modified sequence.
pub open spec fn is_diff_of(
    script: Seq<Edit>,
    original: Seq<Seq<char>>,
    modified: Seq<Seq<char>>,
) -> bool {
    &&& original_side(script) == original
    &&& modified_side(script) == modified
}

/// `script` turns `original` into `modified`, and no script that does so
/// has fewer deletions and insertions.
pub open spec fn is_shortest_diff_of(
    script: Seq<Edit>,
    original: Seq<Seq<char>>,
    modified: Seq<Seq<char>>,
) -> bool {
    &&& is_diff_of(script, original, modified)
    &&& forall|other: Seq<Edit>| #[trigger]
        is_diff_of(other, original, modified) ==> change_count(script) <= change_count(other)
}

/// The sides and the change count of a script, from its first step and the
/// same of the steps after it.
pub proof fn lemma_script_cons(e: Edit, rest: Seq<Edit>)
    ensures
        original_side(seq![e] + rest) == (if in_original(e) {
            seq![e.line] + original_side(rest)
        } else {
            original_side(rest)
        }),
        modified_side(seq![e] + rest) == (if in_modified(e) {
            seq![e.line] + modified_side(rest)
        } else {
            modified_side(rest)
        }),
        change_count(seq![e] + rest) == (if is_change(e) {
            1 + change_count(rest)
        } else {
            change_count(rest)
        }),
{
    rest.lemma_filter_prepend(e, |e: Edit| in_original(e));
    rest.lemma_filter_prepend(e, |e: Edit| in_modified(e));
    rest.lemma_filter_prepend(e, |e: Edit| is_change(e));
}

/// The empty script has empty sides and changes nothing.
pub proof fn lemma_script_empty()
    ensures
        original_side(Seq::<Edit>::empty()) == Seq::<Seq<char>>::empty(),
        modified_side(Seq::<Edit>::empty()) == Seq::<Seq<char>>::empty(),
        change_count(Seq::<Edit>::empty()) == 0,
{
    reveal_with_fuel(Seq::filter, 1);
}

} // verus!
