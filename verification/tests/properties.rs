use line_diff::{compute_diff, diff_lines, diff_lines_within, split_lines, DiffKind, DiffOp};

/// All sequences of at most `longest` lines over `alphabet`.
fn sequences(alphabet: &[&str], longest: usize) -> Vec<Vec<String>> {
    let mut all: Vec<Vec<String>> = vec![Vec::new()];
    let mut last: Vec<Vec<String>> = vec![Vec::new()];
    for _ in 0..longest {
        let mut next = Vec::new();
        for shorter in &last {
            for letter in alphabet {
                let mut longer = shorter.clone();
                longer.push(letter.to_string());
                next.push(longer);
            }
        }
        all.extend(next.iter().cloned());
        last = next;
    }
    all
}

/// The distance from every pair of positions to the end, by the full table.
fn distances(a: &[String], b: &[String]) -> Vec<Vec<usize>> {
    let mut table = vec![vec![0usize; b.len() + 1]; a.len() + 1];
    for i in (0..=a.len()).rev() {
        for j in (0..=b.len()).rev() {
            table[i][j] = if i == a.len() {
                b.len() - j
            } else if j == b.len() {
                a.len() - i
            } else if a[i] == b[j] {
                table[i + 1][j + 1]
            } else {
                1 + table[i + 1][j].min(table[i][j + 1])
            };
        }
    }
    table
}

/// The script that the rules ask for, read off the full table.
fn by_the_rules(a: &[String], b: &[String]) -> Vec<DiffOp> {
    let table = distances(a, b);
    let mut script = Vec::new();
    let (mut i, mut j) = (0, 0);
    while i < a.len() || j < b.len() {
        if i < a.len() && j < b.len() && a[i] == b[j] {
            script.push(DiffOp { kind: DiffKind::Equal, line: a[i].clone() });
            i += 1;
            j += 1;
        } else if i < a.len() && table[i][j] == 1 + table[i + 1][j] {
            script.push(DiffOp { kind: DiffKind::Delete, line: a[i].clone() });
            i += 1;
        } else {
            script.push(DiffOp { kind: DiffKind::Insert, line: b[j].clone() });
            j += 1;
        }
    }
    script
}

/// The fewest changes of any script, by trying every script.
fn fewest_changes(a: &[String], b: &[String]) -> usize {
    if a.is_empty() {
        return b.len();
    }
    if b.is_empty() {
        return a.len();
    }
    let mut best = 1 + fewest_changes(&a[1..], b).min(fewest_changes(a, &b[1..]));
    if a[0] == b[0] {
        best = best.min(fewest_changes(&a[1..], &b[1..]));
    }
    best
}

fn original_side(script: &[DiffOp]) -> Vec<String> {
    script.iter().filter(|op| op.kind != DiffKind::Insert).map(|op| op.line.clone()).collect()
}

fn modified_side(script: &[DiffOp]) -> Vec<String> {
    script.iter().filter(|op| op.kind != DiffKind::Delete).map(|op| op.line.clone()).collect()
}

fn change_count(script: &[DiffOp]) -> usize {
    script.iter().filter(|op| op.kind != DiffKind::Equal).count()
}

fn sample_texts() -> Vec<&'static str> {
    vec![
        "",
        "a",
        "a\n",
        "a\nb\nc",
        "a\nb\nc\n",
        "c\nb\na",
        "a\n\nb\n\nc",
        "a\r\nb\r\nc\r\n",
        "the quick\nbrown fox\njumps over\nthe lazy dog",
        "the quick\nbrown cat\njumps over\nthe lazy dog\n",
        "x\nx\nx\nx",
        "x\ny\nx\ny\nx",
        "\n\n\n",
        "only one line without end",
    ]
}

#[test]
fn kept_and_deleted_lines_are_the_original() {
    for a in sample_texts() {
        for b in sample_texts() {
            assert_eq!(original_side(&compute_diff(a, b)), split_lines(a), "{:?} {:?}", a, b);
        }
    }
    for a in sequences(&["x", "y"], 4) {
        for b in sequences(&["x", "y"], 4) {
            assert_eq!(original_side(&diff_lines(&a, &b)), a);
        }
    }
}

#[test]
fn kept_and_inserted_lines_are_the_modified() {
    for a in sample_texts() {
        for b in sample_texts() {
            assert_eq!(modified_side(&compute_diff(a, b)), split_lines(b), "{:?} {:?}", a, b);
        }
    }
    for a in sequences(&["x", "y"], 4) {
        for b in sequences(&["x", "y"], 4) {
            assert_eq!(modified_side(&diff_lines(&a, &b)), b);
        }
    }
}

#[test]
fn diff_with_itself_keeps_every_line() {
    for a in sequences(&["x", "y", "z"], 4) {
        let script = diff_lines(&a, &a);
        assert_eq!(script.len(), a.len());
        for (op, line) in script.iter().zip(a.iter()) {
            assert_eq!(op, &DiffOp { kind: DiffKind::Equal, line: line.clone() });
        }
    }
}

#[test]
fn diff_from_nothing_inserts_every_line() {
    for b in sequences(&["x", "y", "z"], 4) {
        let script = diff_lines(&Vec::new(), &b);
        assert_eq!(script.len(), b.len());
        for (op, line) in script.iter().zip(b.iter()) {
            assert_eq!(op, &DiffOp { kind: DiffKind::Insert, line: line.clone() });
        }
    }
}

#[test]
fn diff_to_nothing_deletes_every_line() {
    for a in sequences(&["x", "y", "z"], 4) {
        let script = diff_lines(&a, &Vec::new());
        assert_eq!(script.len(), a.len());
        for (op, line) in script.iter().zip(a.iter()) {
            assert_eq!(op, &DiffOp { kind: DiffKind::Delete, line: line.clone() });
        }
    }
}

#[test]
fn equal_inputs_give_equal_scripts() {
    for a in sample_texts() {
        for b in sample_texts() {
            let first = compute_diff(a, b);
            let again = compute_diff(&a.to_string(), &b.to_string());
            assert_eq!(first, again);
        }
    }
}

#[test]
fn no_script_has_fewer_changes() {
    for a in sequences(&["x", "y"], 4) {
        for b in sequences(&["x", "y"], 4) {
            assert_eq!(change_count(&diff_lines(&a, &b)), fewest_changes(&a, &b), "{:?} {:?}", a, b);
        }
    }
    assert_eq!(change_count(&compute_diff("a\nb\nc\nd", "b\nd\ne")), 3);
    assert_eq!(change_count(&compute_diff("a\nb\na", "a\na\nb")), 2);
}

#[test]
fn change_count_is_that_of_the_longest_common_subsequence() {
    for a in sequences(&["x", "y", "z"], 4) {
        for b in sequences(&["x", "y", "z"], 4) {
            let reference = diff::slice(&a, &b);
            let expected = reference
                .iter()
                .filter(|step| !matches!(step, diff::Result::Both(_, _)))
                .count();
            assert_eq!(change_count(&diff_lines(&a, &b)), expected, "{:?} {:?}", a, b);
        }
    }
}

#[test]
fn script_is_the_one_that_the_rules_choose() {
    for a in sequences(&["x", "y", "z"], 4) {
        for b in sequences(&["x", "y", "z"], 4) {
            assert_eq!(diff_lines(&a, &b), by_the_rules(&a, &b), "{:?} {:?}", a, b);
        }
    }
    for a in sequences(&["x", "y"], 6) {
        for b in sequences(&["x", "y"], 5) {
            assert_eq!(diff_lines(&a, &b), by_the_rules(&a, &b), "{:?} {:?}", a, b);
        }
    }
}

#[test]
fn no_insertion_stands_directly_before_a_deletion() {
    for a in sequences(&["x", "y", "z"], 4) {
        for b in sequences(&["x", "y", "z"], 4) {
            let script = diff_lines(&a, &b);
            for pair in script.windows(2) {
                assert!(
                    !(pair[0].kind == DiffKind::Insert && pair[1].kind == DiffKind::Delete),
                    "{:?} {:?}",
                    a,
                    b
                );
            }
        }
    }
}

#[test]
fn limit_decides_by_the_distance_alone() {
    for a in sequences(&["x", "y"], 3) {
        for b in sequences(&["x", "y"], 3) {
            let full = diff_lines(&a, &b);
            let distance = change_count(&full);
            for limit in 0..8 {
                let found = diff_lines_within(&a, &b, limit);
                if distance <= limit {
                    assert_eq!(found, Some(full.clone()));
                } else {
                    assert_eq!(found, None);
                }
            }
        }
    }
}
