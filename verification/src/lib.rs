//! Line-based text diffing with a bounded context around each change, and a
//! variant that canonicalises JSON documents before diffing them.

use vstd::prelude::*;

pub mod differ;
pub mod hunks;
pub mod json;
pub mod laws;
pub mod lines;
pub mod render;
pub mod script;

use crate::differ::{diff_lines, edit_script};
use crate::hunks::{group_into_hunks, shown};
use crate::json::{normalize, normalized};
use crate::lines::{lines_of, split_lines};
use crate::render::{render, rendered};

verus! {

/// The number of unchanged lines that a diff shows on each side of an edit.
pub const CONTEXT_RADIUS: usize = 3;

/// The diff of two texts: the rendering of those changes of the edit script
/// between their lines that lie within the context radius of an edit.
pub open spec fn diff_text(old_text: Seq<char>, new_text: Seq<char>) -> Seq<char> {
    rendered(shown(edit_script(lines_of(old_text), lines_of(new_text)), CONTEXT_RADIUS as int))
}

/// Splits the two texts into lines, diffs them, groups the changes into
/// hunks and renders the hunks.
pub fn generate_diff_string(old: &str, new: &str) -> (out: String)
    ensures
        out@ == diff_text(old@, new@),
{
    let old_lines = split_lines(old);
    let new_lines = split_lines(new);
    let script = diff_lines(&old_lines, &new_lines);
    let hunks = group_into_hunks(&script, CONTEXT_RADIUS);
    render(&hunks)
}

/// The line diff of the two texts as they are.
pub fn compute_diff(old_text: &str, new_text: &str) -> (out: String)
    ensures
        out@ == diff_text(old_text@, new_text@),
{
    generate_diff_string(old_text, new_text)
}

/// The line diff of the two texts after each has been normalized as a JSON
/// document; a text that is no JSON document is diffed as it is.
pub fn compute_semantic_diff(old_text: &str, new_text: &str) -> (out: String)
    ensures
        out@ == diff_text(normalized(old_text@), normalized(new_text@)),
{
    let old_normalized = normalize(old_text);
    let new_normalized = normalize(new_text);
    generate_diff_string(old_normalized.as_str(), new_normalized.as_str())
}

} // verus!
