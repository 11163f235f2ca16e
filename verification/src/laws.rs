//! What holds of every diff.

use crate::differ::{edit_script, lemma_reconstruction};
use crate::diff_text;
use crate::hunks::{
    is_edit, lemma_all_shown_of_edits, lemma_edits_are_shown, lemma_nothing_shown_without_edit,
    shown,
};
use crate::json::{canonical_json, normalized};
use crate::lines::{joined_lines, lemma_lines_join, lines_of};
use crate::render::rendered;
use crate::script::{
    count_of, lemma_lengths_of_sides, lemma_script_from_nothing, lemma_script_to_nothing, new_side,
    old_side, tagged, ChangeTag, ChangeView,
};
use crate::CONTEXT_RADIUS;
use vstd::prelude::*;

verus! {

/// Reconstruction on texts: the lines that the edit script between two texts
/// takes from the old side make up the old text, and the lines that it
/// gives to the new side make up the new text.
pub proof fn lemma_texts_reconstructed(old_text: Seq<char>, new_text: Seq<char>)
    ensures
        joined_lines(old_side(edit_script(lines_of(old_text), lines_of(new_text)))) == old_text,
        joined_lines(new_side(edit_script(lines_of(old_text), lines_of(new_text)))) == new_text,
{
    lemma_reconstruction(lines_of(old_text), lines_of(new_text));
    lemma_lines_join(old_text);
    lemma_lines_join(new_text);
}

/// Identity: the edit script from a text to itself holds no edit, so its
/// diff shows no change with a `-` or a `+`; it shows nothing at all.
pub proof fn lemma_identity(text: Seq<char>)
    ensures
        forall|at: int|
            0 <= at < edit_script(lines_of(text), lines_of(text)).len() ==> !is_edit(
                #[trigger] edit_script(lines_of(text), lines_of(text))[at],
            ),
        diff_text(text, text) == Seq::<char>::empty(),
{
    let script = edit_script(lines_of(text), lines_of(text));
    lemma_nothing_shown_without_edit(script, CONTEXT_RADIUS as int);
}

/// The diff from the empty text shows every line of the new text with a
/// `+` in front, and nothing else.
pub proof fn lemma_diff_from_nothing(new_text: Seq<char>)
    ensures
        diff_text(Seq::empty(), new_text) == rendered(
            tagged(ChangeTag::Insert, lines_of(new_text)),
        ),
{
    let none = lines_of(Seq::<char>::empty());
    let script = edit_script(none, lines_of(new_text));
    assert(none =~= Seq::<Seq<char>>::empty());
    lemma_reconstruction(none, lines_of(new_text));
    lemma_script_from_nothing(script, lines_of(new_text));
    lemma_all_shown_of_edits(script, CONTEXT_RADIUS as int);
}

/// The diff to the empty text shows every line of the old text with a `-`
/// in front, and nothing else.
pub proof fn lemma_diff_to_nothing(old_text: Seq<char>)
    ensures
        diff_text(old_text, Seq::empty()) == rendered(
            tagged(ChangeTag::Delete, lines_of(old_text)),
        ),
{
    let none = lines_of(Seq::<char>::empty());
    let script = edit_script(lines_of(old_text), none);
    assert(none =~= Seq::<Seq<char>>::empty());
    lemma_reconstruction(lines_of(old_text), none);
    lemma_script_to_nothing(script, lines_of(old_text));
    lemma_all_shown_of_edits(script, CONTEXT_RADIUS as int);
}

/// The changes that the diff of two texts shows.
pub open spec fn shown_changes(old_text: Seq<char>, new_text: Seq<char>) -> Seq<ChangeView> {
    shown(edit_script(lines_of(old_text), lines_of(new_text)), CONTEXT_RADIUS as int)
}

/// The number of lines that the edit script between two texts keeps.
pub open spec fn kept_lines(old_text: Seq<char>, new_text: Seq<char>) -> nat {
    count_of(edit_script(lines_of(old_text), lines_of(new_text)), ChangeTag::Equal)
}

/// The diff of two texts shows a change with a `-` for each line of the old
/// text that the edit script does not keep, and one with a `+` for each
/// such line of the new text.
pub proof fn lemma_edit_counts(old_text: Seq<char>, new_text: Seq<char>)
    ensures
        count_of(shown_changes(old_text, new_text), ChangeTag::Delete) + kept_lines(
            old_text,
            new_text,
        ) == lines_of(old_text).len(),
        count_of(shown_changes(old_text, new_text), ChangeTag::Insert) + kept_lines(
            old_text,
            new_text,
        ) == lines_of(new_text).len(),
{
    let script = edit_script(lines_of(old_text), lines_of(new_text));
    lemma_reconstruction(lines_of(old_text), lines_of(new_text));
    lemma_lengths_of_sides(script);
    lemma_edits_are_shown(script, CONTEXT_RADIUS as int);
}

/// Symmetry of the edit counts: the diff from one text to another shows as
/// many changes with a `+` as the diff back shows with a `-`, and as many
/// with a `-` as the diff back shows with a `+`, exactly where the edit
/// scripts keep as many lines in one direction as in the other.
pub proof fn lemma_mirrored_edit_counts(first: Seq<char>, second: Seq<char>)
    ensures
        kept_lines(first, second) == kept_lines(second, first) <==> count_of(
            shown_changes(first, second),
            ChangeTag::Insert,
        ) == count_of(shown_changes(second, first), ChangeTag::Delete),
        kept_lines(first, second) == kept_lines(second, first) <==> count_of(
            shown_changes(first, second),
            ChangeTag::Delete,
        ) == count_of(shown_changes(second, first), ChangeTag::Insert),
{
    lemma_edit_counts(first, second);
    lemma_edit_counts(second, first);
}

/// Graceful degradation: where neither text has a canonical JSON form, the
/// semantic diff is the diff of the texts as they are.
pub proof fn lemma_semantic_diff_without_json(old_text: Seq<char>, new_text: Seq<char>)
    requires
        canonical_json(old_text) is None,
        canonical_json(new_text) is None,
    ensures
        diff_text(normalized(old_text), normalized(new_text)) == diff_text(old_text, new_text),
{
}

/// Where the canonical forms of two texts are their own canonical forms,
/// the semantic diff of the canonical forms is that of the texts.
pub proof fn lemma_semantic_diff_of_canonical_forms(old_text: Seq<char>, new_text: Seq<char>)
    requires
        canonical_json(normalized(old_text)) == canonical_json(old_text),
        canonical_json(normalized(new_text)) == canonical_json(new_text),
    ensures
        diff_text(normalized(normalized(old_text)), normalized(normalized(new_text))) == diff_text(
            normalized(old_text),
            normalized(new_text),
        ),
{
}

} // verus!
