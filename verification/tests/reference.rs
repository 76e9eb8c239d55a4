use line_diff::{compute_diff, diff_lines, DiffKind, DiffOp};

fn owned(lines: &[&str]) -> Vec<String> {
    lines.iter().map(|line| line.to_string()).collect()
}

/// The alignment that the `diff` crate finds, in this library's terms.
fn by_the_diff_crate(a: &[String], b: &[String]) -> Vec<DiffOp> {
    diff::slice(a, b)
        .into_iter()
        .map(|step| match step {
            diff::Result::Left(line) => DiffOp { kind: DiffKind::Delete, line: line.clone() },
            diff::Result::Both(line, _) => DiffOp { kind: DiffKind::Equal, line: line.clone() },
            diff::Result::Right(line) => DiffOp { kind: DiffKind::Insert, line: line.clone() },
        })
        .collect()
}

#[test]
fn same_alignment_as_the_diff_crate_for_one_changed_line() {
    let a = owned(&["line1", "line2", "line3"]);
    let b = owned(&["line1", "lineX", "line3"]);
    assert_eq!(diff_lines(&a, &b), by_the_diff_crate(&a, &b));
}

#[test]
fn same_alignment_as_the_diff_crate_for_swapped_repeated_lines() {
    let a = owned(&["a", "b", "a"]);
    let b = owned(&["a", "a", "b"]);
    assert_eq!(diff_lines(&a, &b), by_the_diff_crate(&a, &b));
}

#[test]
fn an_earlier_match_than_the_diff_crate_takes() {
    // Of two equal lines that could be kept, the `diff` crate keeps the
    // last where the texts end alike; here the first one is kept.
    let a = owned(&["b", "a"]);
    let b = owned(&["c", "a", "a"]);
    let theirs = by_the_diff_crate(&a, &b);
    let ours = diff_lines(&a, &b);
    assert_eq!(theirs.iter().map(|op| op.kind).collect::<Vec<_>>(), vec![
        DiffKind::Delete,
        DiffKind::Insert,
        DiffKind::Insert,
        DiffKind::Equal,
    ]);
    assert_eq!(ours.iter().map(|op| op.kind).collect::<Vec<_>>(), vec![
        DiffKind::Delete,
        DiffKind::Insert,
        DiffKind::Equal,
        DiffKind::Insert,
    ]);
}

#[test]
fn no_empty_line_after_a_final_terminator() {
    // `diff::lines` reports an empty last line for a text that ends with a
    // line feed; here such a text ends with its last line.
    let theirs = diff::lines("a\n", "a\n");
    assert_eq!(theirs, vec![diff::Result::Both("a", "a"), diff::Result::Both("", "")]);
    let ours = compute_diff("a\n", "a\n");
    assert_eq!(ours, vec![DiffOp { kind: DiffKind::Equal, line: "a".to_string() }]);
}
