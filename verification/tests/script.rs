use semdiff::differ::{
    diff_lines, expand_ops, is_script_between, same_lines, script_from_ops, LineOp,
};
use semdiff::lines::split_lines;
use semdiff::script::{Change, ChangeTag};

fn lines(of: &[&str]) -> Vec<String> {
    of.iter().map(|line| line.to_string()).collect()
}

fn equal(line: &str) -> Change {
    Change::Equal(line.to_string())
}

fn delete(line: &str) -> Change {
    Change::Delete(line.to_string())
}

fn insert(line: &str) -> Change {
    Change::Insert(line.to_string())
}

fn old_side(script: &[Change]) -> Vec<String> {
    script
        .iter()
        .filter(|change| change.tag() != ChangeTag::Insert)
        .map(|change| change.line().clone())
        .collect()
}

fn new_side(script: &[Change]) -> Vec<String> {
    script
        .iter()
        .filter(|change| change.tag() != ChangeTag::Delete)
        .map(|change| change.line().clone())
        .collect()
}

#[test]
fn a_change_has_its_tag_and_its_line() {
    let change = Change::new(ChangeTag::Delete, "gone\n".to_string());
    assert_eq!(change, delete("gone\n"));
    assert_eq!(change.tag(), ChangeTag::Delete);
    assert_eq!(change.line(), "gone\n");
    assert_eq!(Change::new(ChangeTag::Equal, "x".to_string()), equal("x"));
    assert_eq!(Change::new(ChangeTag::Insert, "x".to_string()), insert("x"));
    assert_eq!(change.clone(), change);
}

#[test]
fn operations_expand_line_by_line() {
    let old = lines(&["a\n", "b\n", "c\n"]);
    let new = lines(&["a\n", "x\n", "y\n", "c\n"]);
    let ops = vec![
        LineOp::Equal { old_index: 0, new_index: 0, len: 1 },
        LineOp::Replace { old_index: 1, old_len: 1, new_index: 1, new_len: 2 },
        LineOp::Equal { old_index: 2, new_index: 3, len: 1 },
    ];
    assert_eq!(
        expand_ops(&ops, &old, &new),
        vec![equal("a\n"), delete("b\n"), insert("x\n"), insert("y\n"), equal("c\n")]
    );
}

#[test]
fn deletions_and_insertions_expand_from_their_own_side() {
    let old = lines(&["a", "b"]);
    let new = lines(&["c", "d"]);
    let ops = vec![
        LineOp::Delete { old_index: 0, old_len: 2, new_index: 0 },
        LineOp::Insert { old_index: 2, new_index: 0, new_len: 2 },
    ];
    assert_eq!(
        expand_ops(&ops, &old, &new),
        vec![delete("a"), delete("b"), insert("c"), insert("d")]
    );
}

#[test]
fn a_run_beyond_the_lines_is_cut_short() {
    let old = lines(&["a", "b"]);
    let new = lines(&["c"]);
    let ops = vec![
        LineOp::Delete { old_index: 1, old_len: usize::MAX, new_index: 0 },
        LineOp::Insert { old_index: 0, new_index: 5, new_len: 2 },
        LineOp::Equal { old_index: usize::MAX, new_index: 0, len: usize::MAX },
    ];
    assert_eq!(expand_ops(&ops, &old, &new), vec![delete("b")]);
}

#[test]
fn an_edit_script_is_recognised() {
    let old = lines(&["a", "b"]);
    let new = lines(&["a", "c"]);
    assert!(is_script_between(&vec![equal("a"), delete("b"), insert("c")], &old, &new));
    assert!(is_script_between(&vec![equal("a"), insert("c"), delete("b")], &old, &new));
    assert!(is_script_between(
        &vec![delete("a"), delete("b"), insert("a"), insert("c")],
        &old,
        &new
    ));
    assert!(is_script_between(&vec![], &vec![], &vec![]));
}

#[test]
fn what_is_no_edit_script_is_refused() {
    let old = lines(&["a", "b"]);
    let new = lines(&["a", "c"]);
    assert!(!is_script_between(&vec![equal("a"), delete("b")], &old, &new));
    assert!(!is_script_between(&vec![equal("a"), insert("c")], &old, &new));
    assert!(!is_script_between(&vec![equal("a"), equal("b")], &old, &new));
    assert!(!is_script_between(&vec![delete("b"), insert("c"), equal("a")], &old, &new));
    assert!(!is_script_between(
        &vec![equal("a"), delete("b"), insert("c"), insert("d")],
        &old,
        &new
    ));
    assert!(!is_script_between(&vec![], &old, &new));
    assert!(!is_script_between(&vec![equal("a")], &vec![], &vec![]));
}

#[test]
fn fitting_operations_become_the_script() {
    let old = lines(&["a\n", "b\n"]);
    let new = lines(&["b\n", "c\n"]);
    let ops = vec![
        LineOp::Delete { old_index: 0, old_len: 1, new_index: 0 },
        LineOp::Equal { old_index: 1, new_index: 0, len: 1 },
        LineOp::Insert { old_index: 2, new_index: 1, new_len: 1 },
    ];
    assert_eq!(
        script_from_ops(&ops, &old, &new),
        vec![delete("a\n"), equal("b\n"), insert("c\n")]
    );
}

#[test]
fn operations_that_fit_nothing_give_way_to_a_replacement() {
    let old = lines(&["a\n", "b\n"]);
    let new = lines(&["b\n", "c\n"]);
    let replaced = vec![delete("a\n"), delete("b\n"), insert("b\n"), insert("c\n")];
    let too_few = vec![LineOp::Delete { old_index: 0, old_len: 1, new_index: 0 }];
    assert_eq!(script_from_ops(&too_few, &old, &new), replaced);
    let unequal = vec![LineOp::Equal { old_index: 0, new_index: 0, len: 2 }];
    assert_eq!(script_from_ops(&unequal, &old, &new), replaced);
    let beyond = vec![
        LineOp::Delete { old_index: 0, old_len: 3, new_index: 0 },
        LineOp::Insert { old_index: 3, new_index: 0, new_len: 2 },
        LineOp::Insert { old_index: 3, new_index: 2, new_len: 1 },
    ];
    assert_eq!(script_from_ops(&beyond, &old, &new), replaced);
    assert_eq!(script_from_ops(&vec![], &old, &new), replaced);
}

#[test]
fn no_operations_between_empty_sequences() {
    assert_eq!(script_from_ops(&vec![], &vec![], &vec![]), Vec::<Change>::new());
}

#[test]
fn the_same_lines_are_told_from_others() {
    assert!(same_lines(&lines(&[]), &lines(&[])));
    assert!(same_lines(&lines(&["a", "b"]), &lines(&["a", "b"])));
    assert!(!same_lines(&lines(&["a", "b"]), &lines(&["a"])));
    assert!(!same_lines(&lines(&["a", "b"]), &lines(&["a", "c"])));
    assert!(!same_lines(&lines(&["a"]), &lines(&["a\n"])));
}

#[test]
fn the_script_of_one_replaced_line() {
    let old = lines(&["a\n", "b\n", "c\n"]);
    let new = lines(&["a\n", "x\n", "c\n"]);
    assert_eq!(
        diff_lines(&old, &new),
        vec![equal("a\n"), delete("b\n"), insert("x\n"), equal("c\n")]
    );
}

#[test]
fn the_script_between_the_same_lines_keeps_them_all() {
    let both = lines(&["a\n", "a\n", "b"]);
    assert_eq!(diff_lines(&both, &both), vec![equal("a\n"), equal("a\n"), equal("b")]);
    assert_eq!(diff_lines(&vec![], &vec![]), Vec::<Change>::new());
}

#[test]
fn the_script_from_and_to_nothing() {
    let some = lines(&["a\n", "b\n"]);
    assert_eq!(diff_lines(&vec![], &some), vec![insert("a\n"), insert("b\n")]);
    assert_eq!(diff_lines(&some, &vec![]), vec![delete("a\n"), delete("b\n")]);
}

#[test]
fn the_script_keeps_the_common_lines_of_unlike_texts() {
    let old = lines(&["a\n", "b\n", "c\n", "d\n", "e\n"]);
    let new = lines(&["b\n", "c\n", "x\n", "e\n", "f\n"]);
    assert_eq!(
        diff_lines(&old, &new),
        vec![
            delete("a\n"),
            equal("b\n"),
            equal("c\n"),
            delete("d\n"),
            insert("x\n"),
            equal("e\n"),
            insert("f\n"),
        ]
    );
}

#[test]
fn every_script_gives_back_both_sequences() {
    let samples: [(&[&str], &[&str]); 6] = [
        (&[], &[]),
        (&["a"], &[]),
        (&["a", "b", "a", "b"], &["b", "a", "b", "a"]),
        (&["x", "x", "x"], &["x", "x"]),
        (&["1", "2", "3", "4", "5", "6"], &["6", "5", "4", "3", "2", "1"]),
        (&["k\n", "l\n", "m"], &["k\n", "l\n", "m\n"]),
    ];
    for (old, new) in samples {
        let old = lines(old);
        let new = lines(new);
        let script = diff_lines(&old, &new);
        assert_eq!(old_side(&script), old);
        assert_eq!(new_side(&script), new);
        assert!(is_script_between(&script, &old, &new));
    }
}

#[test]
fn the_sides_of_a_script_joined_are_the_texts() {
    let samples = [
        ("", ""),
        ("a\nb\nc\n", "a\nx\nc\n"),
        ("first\r\nsecond\rthird", "first\nsecond\r\nfourth\n"),
        ("one line", ""),
    ];
    for (old, new) in samples {
        let script = diff_lines(&split_lines(old), &split_lines(new));
        assert_eq!(old_side(&script).concat(), old);
        assert_eq!(new_side(&script).concat(), new);
    }
}
