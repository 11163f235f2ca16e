//! Rendering: each change of a hunk as its line with a sign in front.

use crate::hunks::{hunk_views, joined, Hunk};
use crate::script::{change_views, Change, ChangeTag, ChangeView};
use vstd::prelude::*;
use vstd::string::StringExecFns;

verus! {

/// The sign in front of a rendered change.
pub open spec fn sign_of(tag: ChangeTag) -> char {
    match tag {
        ChangeTag::Equal => ' ',
        ChangeTag::Delete => '-',
        ChangeTag::Insert => '+',
    }
}

/// A change as it is rendered: its sign and then its line as it is, with
/// the terminator that the line has and none where it has none.
pub open spec fn rendered_change(change: ChangeView) -> Seq<char> {
    seq![sign_of(change.tag)] + change.line
}

/// The changes as they are rendered, one behind the other.
pub open spec fn rendered(changes: Seq<ChangeView>) -> Seq<char>
    decreases changes.len(),
{
    if changes.len() == 0 {
        Seq::empty()
    } else {
        rendered(changes.drop_last()) + rendered_change(changes.last())
    }
}

/// Rendering two runs of changes one behind the other renders the two
/// together.
pub proof fn lemma_rendered_concat(first: Seq<ChangeView>, second: Seq<ChangeView>)
    ensures
        rendered(first + second) == rendered(first) + rendered(second),
    decreases second.len(),
{
    if second.len() > 0 {
        lemma_rendered_concat(first, second.drop_last());
        assert((first + second).drop_last() =~= first + second.drop_last());
    }
}

/// Appends the rendering of `change` to `out`.
pub fn render_change(out: &mut String, change: &Change)
    ensures
        final(out)@ == old(out)@ + rendered_change(change@),
{
    let sign = match change.tag() {
        ChangeTag::Equal => ' ',
        ChangeTag::Delete => '-',
        ChangeTag::Insert => '+',
    };
    out.push(sign);
    out.append(change.line().as_str());
}

/// Renders the hunks: every change of every hunk, in order, with nothing
/// between two hunks.
pub fn render(hunks: &Vec<Hunk>) -> (out: String)
    ensures
        out@ == rendered(joined(hunk_views(hunks@))),
{
    let ghost all = hunk_views(hunks@);
    let mut out = String::new();
    let mut h: usize = 0;
    while h < hunks.len()
        invariant
            all == hunk_views(hunks@),
            h <= hunks@.len(),
            out@ == rendered(joined(all.take(h as int))),
        decreases hunks@.len() - h,
    {
        let hunk = &hunks[h];
        let ghost before = out@;
        let ghost changes = change_views(hunk.changes@);
        let mut at: usize = 0;
        while at < hunk.changes.len()
            invariant
                changes == change_views(hunk.changes@),
                at <= hunk.changes@.len(),
                out@ == before + rendered(changes.take(at as int)),
            decreases hunk.changes@.len() - at,
        {
            render_change(&mut out, &hunk.changes[at]);
            assert(changes.take(at + 1).drop_last() =~= changes.take(at as int));
            at += 1;
        }
        proof {
            assert(changes.take(at as int) =~= changes);
            assert(all.take(h + 1).drop_last() =~= all.take(h as int));
            lemma_rendered_concat(joined(all.take(h as int)), changes);
        }
        h += 1;
    }
    assert(all.take(h as int) =~= all);
    out
}

} // verus!
