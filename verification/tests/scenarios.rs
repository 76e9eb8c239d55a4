use line_diff::{compute_diff, compute_diff_within, diff_lines, diff_lines_within, DiffKind, DiffOp};

fn equal(line: &str) -> DiffOp {
    DiffOp { kind: DiffKind::Equal, line: line.to_string() }
}

fn delete(line: &str) -> DiffOp {
    DiffOp { kind: DiffKind::Delete, line: line.to_string() }
}

fn insert(line: &str) -> DiffOp {
    DiffOp { kind: DiffKind::Insert, line: line.to_string() }
}

fn owned(lines: &[&str]) -> Vec<String> {
    lines.iter().map(|line| line.to_string()).collect()
}

#[test]
fn one_changed_line_between_two_kept_lines() {
    let script = compute_diff("line1\nline2\nline3", "line1\nlineX\nline3");
    assert_eq!(script, vec![equal("line1"), delete("line2"), insert("lineX"), equal("line3")]);
}

#[test]
fn repeated_lines_follow_the_tie_break() {
    let script = compute_diff("a\nb\na", "a\na\nb");
    assert_eq!(script, vec![equal("a"), delete("b"), equal("a"), insert("b")]);
}

#[test]
fn repeated_lines_give_the_same_script_every_time() {
    let first = compute_diff("a\nb\na", "a\na\nb");
    for _ in 0..10 {
        assert_eq!(compute_diff("a\nb\na", "a\na\nb"), first);
    }
}

#[test]
fn two_empty_texts_have_an_empty_diff() {
    assert_eq!(compute_diff("", ""), Vec::<DiffOp>::new());
}

#[test]
fn empty_original_inserts_every_line() {
    let script = compute_diff("", "one\ntwo\nthree");
    assert_eq!(script, vec![insert("one"), insert("two"), insert("three")]);
}

#[test]
fn empty_modified_deletes_every_line() {
    let script = compute_diff("one\ntwo\nthree", "");
    assert_eq!(script, vec![delete("one"), delete("two"), delete("three")]);
}

#[test]
fn identical_texts_keep_every_line() {
    let text = "alpha\nbeta\n\ngamma\nbeta";
    let script = compute_diff(text, text);
    assert_eq!(
        script,
        vec![equal("alpha"), equal("beta"), equal(""), equal("gamma"), equal("beta")]
    );
}

#[test]
fn a_match_is_taken_as_soon_as_it_stands_next() {
    // Both "a" of the modified text could be the kept one; the first is.
    let script = compute_diff("b\na", "c\na\na");
    assert_eq!(script, vec![delete("b"), insert("c"), equal("a"), insert("a")]);
}

#[test]
fn deletions_come_before_insertions_in_a_hunk() {
    let script = compute_diff("k\nx\ny\nz\nk", "k\np\nq\nk");
    assert_eq!(
        script,
        vec![
            equal("k"),
            delete("x"),
            delete("y"),
            delete("z"),
            insert("p"),
            insert("q"),
            equal("k"),
        ]
    );
}

#[test]
fn insertion_first_where_only_that_is_shortest() {
    // Deleting "b" first would cost a change more.
    let script = compute_diff("b\nc", "a\nb");
    assert_eq!(script, vec![insert("a"), equal("b"), delete("c")]);
}

#[test]
fn lines_that_differ_in_trailing_space_are_distinct() {
    let script = compute_diff("a \nb", "a\nb");
    assert_eq!(script, vec![delete("a "), insert("a"), equal("b")]);
}

#[test]
fn lines_that_differ_in_case_are_distinct() {
    let script = compute_diff("Abc", "abc");
    assert_eq!(script, vec![delete("Abc"), insert("abc")]);
}

#[test]
fn terminator_style_is_not_a_difference() {
    let script = compute_diff("a\r\nb\r\n", "a\nb");
    assert_eq!(script, vec![equal("a"), equal("b")]);
}

#[test]
fn final_terminator_is_not_a_difference() {
    assert_eq!(compute_diff("a\nb\n", "a\nb"), vec![equal("a"), equal("b")]);
}

#[test]
fn second_final_terminator_is_an_empty_line() {
    assert_eq!(compute_diff("a\n\n", "a\n"), vec![equal("a"), delete("")]);
}

#[test]
fn lines_outside_ascii_are_compared_whole() {
    let script = compute_diff("größe\n日本語\nfin", "grösse\n日本語\nfin");
    assert_eq!(script, vec![delete("größe"), insert("grösse"), equal("日本語"), equal("fin")]);
}

#[test]
fn diff_of_line_vectors() {
    let script = diff_lines(&owned(&["x", "y", "z"]), &owned(&["x", "z", "w"]));
    assert_eq!(script, vec![equal("x"), delete("y"), equal("z"), insert("w")]);
}

#[test]
fn a_line_vector_may_hold_line_feeds() {
    // Lines are compared as they are given; nothing splits them again.
    let script = diff_lines(&owned(&["a\nb"]), &owned(&["a", "b"]));
    assert_eq!(script, vec![delete("a\nb"), insert("a"), insert("b")]);
}

#[test]
fn within_the_limit_the_diff_is_returned() {
    let found = compute_diff_within("line1\nline2\nline3", "line1\nlineX\nline3", 2);
    assert_eq!(
        found,
        Some(vec![equal("line1"), delete("line2"), insert("lineX"), equal("line3")])
    );
}

#[test]
fn beyond_the_limit_nothing_is_returned() {
    assert_eq!(compute_diff_within("line1\nline2\nline3", "line1\nlineX\nline3", 1), None);
    assert_eq!(compute_diff_within("line1\nline2\nline3", "line1\nlineX\nline3", 0), None);
}

#[test]
fn limit_zero_accepts_equal_line_sequences_only() {
    assert_eq!(compute_diff_within("a\nb\n", "a\r\nb", 0), Some(vec![equal("a"), equal("b")]));
    assert_eq!(compute_diff_within("", "", 0), Some(Vec::new()));
    assert_eq!(compute_diff_within("a", "", 0), None);
}

#[test]
fn largest_limit_is_no_limit() {
    let a = owned(&["1", "2", "3", "4"]);
    let b = owned(&["5", "6", "7"]);
    assert_eq!(diff_lines_within(&a, &b, usize::MAX), Some(diff_lines(&a, &b)));
    assert_eq!(diff_lines_within(&a, &b, 7), Some(diff_lines(&a, &b)));
    assert_eq!(diff_lines_within(&a, &b, 6), None);
}

#[test]
fn long_texts_with_few_changes() {
    let mut original = String::new();
    let mut modified = String::new();
    for k in 0..20000 {
        original.push_str(&format!("line {}\n", k));
        if k == 5000 {
            modified.push_str("a new line\n");
        }
        if k != 12345 {
            modified.push_str(&format!("line {}\n", k));
        }
    }
    let script = compute_diff(&original, &modified);
    assert_eq!(script.len(), 20001);
    let changes: Vec<&DiffOp> = script.iter().filter(|op| op.kind != DiffKind::Equal).collect();
    assert_eq!(changes, vec![&insert("a new line"), &delete("line 12345")]);
    assert_eq!(script[5000], insert("a new line"));
    assert_eq!(script[12346], delete("line 12345"));
}

#[test]
fn texts_with_nothing_in_common() {
    let original: Vec<String> = (0..300).map(|k| format!("left {}", k)).collect();
    let modified: Vec<String> = (0..200).map(|k| format!("right {}", k)).collect();
    let script = diff_lines(&original, &modified);
    assert_eq!(script.len(), 500);
    for k in 0..300 {
        assert_eq!(script[k], delete(&original[k]));
    }
    for k in 0..200 {
        assert_eq!(script[300 + k], insert(&modified[k]));
    }
}
