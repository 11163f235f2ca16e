//! The line differ: the operations that `similar` finds between two
//! sequences of lines, and the edit script that they stand for.

use crate::lines::line_views;
use crate::script::{
    change_views, lemma_sides_of_concat, lemma_sides_of_prefix, lemma_sides_of_tagged, new_side,
    old_side, tagged, transforms, Change, ChangeTag, ChangeView,
};
use vstd::prelude::*;

verus! {

/// A run of lines that an edit keeps, removes, adds or replaces, by the
/// positions of the lines in the old and in the new sequence.
#[derive(Clone, Copy, Debug, PartialEq, Eq, Structural)]
pub enum LineOp {
    /// `len` lines from `old_index` on equal those from `new_index` on.
    Equal { old_index: usize, new_index: usize, len: usize },
    /// `old_len` old lines from `old_index` on are removed.
    Delete { old_index: usize, old_len: usize, new_index: usize },
    /// `new_len` new lines from `new_index` on are added.
    Insert { old_index: usize, new_index: usize, new_len: usize },
    /// `old_len` old lines give way to `new_len` new lines.
    Replace { old_index: usize, old_len: usize, new_index: usize, new_len: usize },
}

/// The lines of `lines` from position `start` on, `len` of them or as many
/// as there are.
pub open spec fn run_of(lines: Seq<Seq<char>>, start: int, len: int) -> Seq<Seq<char>> {
    let first = if start < lines.len() { start } else { lines.len() as int };
    let end = if start + len < lines.len() { start + len } else { lines.len() as int };
    lines.subrange(first, end)
}

/// The changes that one operation stands for: a change for each line of its
/// run, the removed lines of a replacement before the added ones. An `Equal`
/// operation takes its lines from the old sequence.
pub open spec fn op_changes(op: LineOp, old: Seq<Seq<char>>, new: Seq<Seq<char>>) -> Seq<
    ChangeView,
> {
    match op {
        LineOp::Equal { old_index, len, .. } => tagged(
            ChangeTag::Equal,
            run_of(old, old_index as int, len as int),
        ),
        LineOp::Delete { old_index, old_len, .. } => tagged(
            ChangeTag::Delete,
            run_of(old, old_index as int, old_len as int),
        ),
        LineOp::Insert { new_index, new_len, .. } => tagged(
            ChangeTag::Insert,
            run_of(new, new_index as int, new_len as int),
        ),
        LineOp::Replace { old_index, old_len, new_index, new_len } => tagged(
            ChangeTag::Delete,
            run_of(old, old_index as int, old_len as int),
        ) + tagged(ChangeTag::Insert, run_of(new, new_index as int, new_len as int)),
    }
}

/// The changes that a sequence of operations stands for, in order.
pub open spec fn ops_changes(ops: Seq<LineOp>, old: Seq<Seq<char>>, new: Seq<Seq<char>>) -> Seq<
    ChangeView,
>
    decreases ops.len(),
{
    if ops.len() == 0 {
        Seq::empty()
    } else {
        ops_changes(ops.drop_last(), old, new) + op_changes(ops.last(), old, new)
    }
}

/// Appends to `script` a change with `tag` for each line of the run of
/// `lines` that starts at `start` and has `len` lines.
fn push_run(script: &mut Vec<Change>, tag: ChangeTag, lines: &Vec<String>, start: usize, len: usize)
    ensures
        change_views(final(script)@) == change_views(old(script)@) + tagged(
            tag,
            run_of(line_views(lines@), start as int, len as int),
        ),
{
    let count = lines.len();
    let first = if start < count { start } else { count };
    let end = if len < count - first { first + len } else { count };
    let ghost before = change_views(script@);
    let mut at = first;
    while at < end
        invariant
            first <= at <= end <= count,
            count == lines@.len(),
            change_views(script@) == before + tagged(
                tag,
                line_views(lines@).subrange(first as int, at as int),
            ),
        decreases end - at,
    {
        let ghost so_far = change_views(script@);
        let change = Change::new(tag, lines[at].clone());
        script.push(change);
        at += 1;
        assert(change_views(script@) =~= so_far.push(change@));
    }
}

/// Writes out the changes that `ops` stand for on the lines `old` and `new`.
pub fn expand_ops(ops: &Vec<LineOp>, old: &Vec<String>, new: &Vec<String>) -> (script: Vec<Change>)
    ensures
        change_views(script@) == ops_changes(ops@, line_views(old@), line_views(new@)),
{
    let mut script: Vec<Change> = Vec::new();
    let mut at: usize = 0;
    while at < ops.len()
        invariant
            at <= ops@.len(),
            change_views(script@) == ops_changes(
                ops@.take(at as int),
                line_views(old@),
                line_views(new@),
            ),
        decreases ops@.len() - at,
    {
        assert(ops@.take(at + 1).drop_last() =~= ops@.take(at as int));
        match ops[at] {
            LineOp::Equal { old_index, len, .. } => {
                push_run(&mut script, ChangeTag::Equal, old, old_index, len);
            },
            LineOp::Delete { old_index, old_len, .. } => {
                push_run(&mut script, ChangeTag::Delete, old, old_index, old_len);
            },
            LineOp::Insert { new_index, new_len, .. } => {
                push_run(&mut script, ChangeTag::Insert, new, new_index, new_len);
            },
            LineOp::Replace { old_index, old_len, new_index, new_len } => {
                push_run(&mut script, ChangeTag::Delete, old, old_index, old_len);
                push_run(&mut script, ChangeTag::Insert, new, new_index, new_len);
            },
        }
        at += 1;
    }
    assert(ops@.take(at as int) =~= ops@);
    script
}

/// Whether `script` is an edit script from `old` to `new`.
pub fn is_script_between(script: &Vec<Change>, old: &Vec<String>, new: &Vec<String>) -> (yes: bool)
    ensures
        yes == transforms(change_views(script@), line_views(old@), line_views(new@)),
{
    let ghost changes = change_views(script@);
    let ghost old_lines = line_views(old@);
    let ghost new_lines = line_views(new@);
    let mut taken: usize = 0;
    let mut given: usize = 0;
    let mut at: usize = 0;
    while at < script.len()
        invariant
            changes == change_views(script@),
            old_lines == line_views(old@),
            new_lines == line_views(new@),
            at <= script@.len(),
            taken <= old@.len(),
            given <= new@.len(),
            old_side(changes.take(at as int)) == old_lines.take(taken as int),
            new_side(changes.take(at as int)) == new_lines.take(given as int),
        decreases script@.len() - at,
    {
        let change = &script[at];
        proof {
            lemma_sides_of_prefix(changes, at + 1);
            assert(changes.take(at + 1).drop_last() =~= changes.take(at as int));
            let old_next = old_side(changes.take(at + 1));
            let new_next = new_side(changes.take(at + 1));
            if change@.tag != ChangeTag::Insert {
                assert(old_side(changes).subrange(0, old_next.len() as int)[taken as int]
                    == change@.line);
            }
            if change@.tag != ChangeTag::Delete {
                assert(new_side(changes).subrange(0, new_next.len() as int)[given as int]
                    == change@.line);
            }
        }
        match change.tag() {
            ChangeTag::Equal => {
                if taken >= old.len() || given >= new.len() {
                    return false;
                }
                if *change.line() != old[taken] || *change.line() != new[given] {
                    return false;
                }
                taken += 1;
                given += 1;
            },
            ChangeTag::Delete => {
                if taken >= old.len() {
                    return false;
                }
                if *change.line() != old[taken] {
                    return false;
                }
                taken += 1;
            },
            ChangeTag::Insert => {
                if given >= new.len() {
                    return false;
                }
                if *change.line() != new[given] {
                    return false;
                }
                given += 1;
            },
        }
        at += 1;
    }
    proof {
        assert(changes.take(at as int) =~= changes);
        assert(old_lines.take(old_lines.len() as int) =~= old_lines);
        assert(new_lines.take(new_lines.len() as int) =~= new_lines);
    }
    taken == old.len() && given == new.len()
}

/// The script that removes every line of `old` and then adds every line of
/// `new`.
pub open spec fn replacement(old: Seq<Seq<char>>, new: Seq<Seq<char>>) -> Seq<ChangeView> {
    tagged(ChangeTag::Delete, old) + tagged(ChangeTag::Insert, new)
}

/// Removing every line of `old` and then adding every line of `new` is an
/// edit script from `old` to `new`.
pub proof fn lemma_replacement_transforms(old: Seq<Seq<char>>, new: Seq<Seq<char>>)
    ensures
        transforms(replacement(old, new), old, new),
{
    lemma_sides_of_concat(tagged(ChangeTag::Delete, old), tagged(ChangeTag::Insert, new));
    lemma_sides_of_tagged(ChangeTag::Delete, old);
    lemma_sides_of_tagged(ChangeTag::Insert, new);
}

/// A change with `tag` for each of `lines`.
fn tag_all(tag: ChangeTag, lines: &Vec<String>) -> (script: Vec<Change>)
    ensures
        change_views(script@) == tagged(tag, line_views(lines@)),
{
    let mut script: Vec<Change> = Vec::new();
    push_run(&mut script, tag, lines, 0, lines.len());
    script
}

/// The script that removes every line of `old` and then adds every line of
/// `new`.
pub fn replace_all(old: &Vec<String>, new: &Vec<String>) -> (script: Vec<Change>)
    ensures
        change_views(script@) == replacement(line_views(old@), line_views(new@)),
        transforms(change_views(script@), line_views(old@), line_views(new@)),
{
    let mut script = tag_all(ChangeTag::Delete, old);
    push_run(&mut script, ChangeTag::Insert, new, 0, new.len());
    proof {
        let added = line_views(new@);
        assert(run_of(added, 0, added.len() as int) =~= added);
        lemma_replacement_transforms(line_views(old@), added);
    }
    script
}

/// The script that the operations `ops` give for `old` and `new`: the
/// changes that they stand for where these form an edit script from `old` to
/// `new`, else the script that removes every old line and then adds every
/// new one.
pub open spec fn script_of_ops(ops: Seq<LineOp>, old: Seq<Seq<char>>, new: Seq<Seq<char>>) -> Seq<
    ChangeView,
> {
    let found = ops_changes(ops, old, new);
    if transforms(found, old, new) {
        found
    } else {
        replacement(old, new)
    }
}

/// Turns the operations `ops` into the edit script from `old` to `new` that
/// they stand for, and into the script that replaces all of `old` by all of
/// `new` where they stand for none.
pub fn script_from_ops(ops: &Vec<LineOp>, old: &Vec<String>, new: &Vec<String>) -> (script: Vec<
    Change,
>)
    ensures
        change_views(script@) == script_of_ops(ops@, line_views(old@), line_views(new@)),
        transforms(change_views(script@), line_views(old@), line_views(new@)),
{
    let found = expand_ops(ops, old, new);
    if is_script_between(&found, old, new) {
        found
    } else {
        replace_all(old, new)
    }
}

/// What `similar` finds between the line sequences `old` and `new`: the
/// operations of `TextDiff::from_slices(old, new).ops()`.
pub uninterp spec fn similar_line_ops(old: Seq<Seq<char>>, new: Seq<Seq<char>>) -> Seq<LineOp>;

/// The most lines, old and new together, that are handed to `similar`,
/// which numbers the distinct lines of longer texts with 32 bits.
pub const MAX_DIFFED_LINES: usize = 0xFFFF_FFFF;

/// Calls `similar::TextDiff::from_slices` on the two line sequences and
/// copies out the operations that it captured, variant by variant.
///
/// `from_slices` diffs with the crate's default algorithm and without a
/// deadline, so what it finds depends on the lines alone. The contract gives
/// that result its name and claims nothing else of it. With more than
/// `MAX_DIFFED_LINES` lines the 32-bit counter of distinct lines inside
/// `similar` could overflow, so such inputs are left out.
#[verifier::external_body]
fn capture_line_ops(old: &Vec<String>, new: &Vec<String>) -> (ops: Vec<LineOp>)
    requires
        old@.len() + new@.len() <= MAX_DIFFED_LINES,
    ensures
        ops@ == similar_line_ops(line_views(old@), line_views(new@)),
{
    let old_lines: Vec<&str> = old.iter().map(String::as_str).collect();
    let new_lines: Vec<&str> = new.iter().map(String::as_str).collect();
    let diff = similar::TextDiff::from_slices(&old_lines, &new_lines);
    diff.ops().iter().map(|op| match *op {
        similar::DiffOp::Equal { old_index, new_index, len } =>
            LineOp::Equal { old_index, new_index, len },
        similar::DiffOp::Delete { old_index, old_len, new_index } =>
            LineOp::Delete { old_index, old_len, new_index },
        similar::DiffOp::Insert { old_index, new_index, new_len } =>
            LineOp::Insert { old_index, new_index, new_len },
        similar::DiffOp::Replace { old_index, old_len, new_index, new_len } =>
            LineOp::Replace { old_index, old_len, new_index, new_len },
    }).collect()
}

/// The edit script from `old` to `new`: every line kept where the two are
/// the same; else the script of the operations that `similar` finds; and
/// the replacement of all lines where there are too many to ask `similar`.
pub open spec fn edit_script(old: Seq<Seq<char>>, new: Seq<Seq<char>>) -> Seq<ChangeView> {
    if old == new {
        tagged(ChangeTag::Equal, old)
    } else if old.len() + new.len() <= MAX_DIFFED_LINES {
        script_of_ops(similar_line_ops(old, new), old, new)
    } else {
        replacement(old, new)
    }
}

/// Reconstruction: the edit script from `old` to `new` takes exactly the
/// lines of `old`, in order, and gives exactly the lines of `new`.
pub proof fn lemma_reconstruction(old: Seq<Seq<char>>, new: Seq<Seq<char>>)
    ensures
        old_side(edit_script(old, new)) == old,
        new_side(edit_script(old, new)) == new,
{
    if old == new {
        lemma_sides_of_tagged(ChangeTag::Equal, old);
    } else {
        lemma_replacement_transforms(old, new);
    }
}

/// Whether the two vectors hold the same lines.
pub fn same_lines(first: &Vec<String>, second: &Vec<String>) -> (same: bool)
    ensures
        same == (line_views(first@) == line_views(second@)),
{
    if first.len() != second.len() {
        assert(line_views(first@).len() != line_views(second@).len());
        return false;
    }
    let mut at: usize = 0;
    while at < first.len()
        invariant
            first@.len() == second@.len(),
            at <= first@.len(),
            forall|i: int| 0 <= i < at ==> first@[i]@ == second@[i]@,
        decreases first@.len() - at,
    {
        if first[at] != second[at] {
            assert(line_views(first@)[at as int] != line_views(second@)[at as int]);
            return false;
        }
        at += 1;
    }
    assert(line_views(first@) =~= line_views(second@));
    true
}

/// Computes the edit script from the lines `old` to the lines `new`.
pub fn diff_lines(old: &Vec<String>, new: &Vec<String>) -> (script: Vec<Change>)
    ensures
        change_views(script@) == edit_script(line_views(old@), line_views(new@)),
        transforms(change_views(script@), line_views(old@), line_views(new@)),
{
    if same_lines(old, new) {
        proof {
            lemma_sides_of_tagged(ChangeTag::Equal, line_views(old@));
        }
        tag_all(ChangeTag::Equal, old)
    } else if old.len() <= MAX_DIFFED_LINES && new.len() <= MAX_DIFFED_LINES - old.len() {
        let ops = capture_line_ops(old, new);
        script_from_ops(&ops, old, new)
    } else {
        replace_all(old, new)
    }
}

} // verus!
