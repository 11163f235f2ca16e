use semdiff::hunks::{edit_context, group_into_hunks, Hunk};
use semdiff::script::Change;

// A script from a pattern: `=` keeps, `-` removes and `+` adds a line; each
// line holds its position in the script.
fn script(pattern: &str) -> Vec<Change> {
    pattern
        .chars()
        .enumerate()
        .map(|(at, tag)| {
            let line = format!("{}\n", at);
            match tag {
                '-' => Change::Delete(line),
                '+' => Change::Insert(line),
                _ => Change::Equal(line),
            }
        })
        .collect()
}

// The positions that the hunks cover, as a pattern: `#` shown, `.` hidden.
fn cover(hunks: &[Hunk], len: usize) -> String {
    let mut shown = vec!['.'; len];
    for hunk in hunks {
        for at in hunk.start..hunk.start + hunk.changes.len() {
            shown[at] = '#';
        }
    }
    shown.into_iter().collect()
}

fn context(pattern: &str, radius: usize) -> String {
    edit_context(&script(pattern), radius)
        .into_iter()
        .map(|near| if near { '#' } else { '.' })
        .collect()
}

#[test]
fn positions_near_an_edit() {
    assert_eq!(context("=====-=====", 3), "..#######..");
    assert_eq!(context("=====-=====", 0), ".....#.....");
    assert_eq!(context("=====-=====", 1), "....###....");
    assert_eq!(context("=====-=====", 100), "###########");
    assert_eq!(context("=====-=====", usize::MAX), "###########");
    assert_eq!(context("+=========-", 2), "###.....###");
    assert_eq!(context("==========", 3), "..........");
    assert_eq!(context("", 3), "");
}

#[test]
fn a_script_without_edit_has_no_hunk() {
    assert_eq!(group_into_hunks(&script("=========="), 3), Vec::<Hunk>::new());
    assert_eq!(group_into_hunks(&script(""), 3), Vec::<Hunk>::new());
    assert_eq!(group_into_hunks(&script("="), 0), Vec::<Hunk>::new());
}

#[test]
fn a_hunk_holds_its_changes_and_its_start() {
    let changes = script("======-+======");
    let hunks = group_into_hunks(&changes, 2);
    assert_eq!(hunks, vec![Hunk { start: 4, changes: changes[4..10].to_vec() }]);
}

#[test]
fn radius_nought_shows_the_edits_alone() {
    let changes = script("==-==+-==");
    let hunks = group_into_hunks(&changes, 0);
    assert_eq!(
        hunks,
        vec![
            Hunk { start: 2, changes: changes[2..3].to_vec() },
            Hunk { start: 5, changes: changes[5..7].to_vec() },
        ]
    );
}

#[test]
fn context_is_cut_at_both_ends_of_the_script() {
    let changes = script("=-=");
    assert_eq!(group_into_hunks(&changes, 3), vec![Hunk { start: 0, changes: changes.clone() }]);
    let changes = script("=====-=====");
    assert_eq!(cover(&group_into_hunks(&changes, 3), changes.len()), "..#######..");
}

#[test]
fn windows_that_touch_are_one_hunk() {
    // six kept lines between the edits: three after the first, three before the second
    let changes = script("-======-");
    let hunks = group_into_hunks(&changes, 3);
    assert_eq!(hunks, vec![Hunk { start: 0, changes: changes.clone() }]);
}

#[test]
fn windows_with_a_line_between_them_are_two_hunks() {
    let changes = script("-=======-");
    let hunks = group_into_hunks(&changes, 3);
    assert_eq!(
        hunks,
        vec![
            Hunk { start: 0, changes: changes[0..4].to_vec() },
            Hunk { start: 5, changes: changes[5..9].to_vec() },
        ]
    );
}

#[test]
fn hunks_come_in_order_and_apart() {
    let changes = script("====-==========+=====-=-==========+");
    let hunks = group_into_hunks(&changes, 2);
    assert_eq!(cover(&hunks, changes.len()), "..#####......#####.#######......###");
    assert_eq!(hunks.len(), 4);
    for pair in hunks.windows(2) {
        assert!(pair[0].start + pair[0].changes.len() < pair[1].start);
    }
    for hunk in &hunks {
        assert_eq!(hunk.changes, changes[hunk.start..hunk.start + hunk.changes.len()].to_vec());
    }
}

#[test]
fn a_huge_radius_shows_every_line_of_a_script_with_an_edit() {
    let changes = script("==========+==========");
    assert_eq!(
        group_into_hunks(&changes, usize::MAX),
        vec![Hunk { start: 0, changes: changes.clone() }]
    );
}
