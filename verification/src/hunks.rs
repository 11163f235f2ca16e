//! Hunks: the edits of a script, each with the unchanged lines that lie
//! within a context radius of it.

use crate::script::{change_views, count_of, Change, ChangeTag, ChangeView};
use vstd::prelude::*;

verus! {

/// Whether a change is an edit: a `Delete` or an `Insert`.
pub open spec fn is_edit(change: ChangeView) -> bool {
    change.tag != ChangeTag::Equal
}

/// Whether position `at` of `script` lies within `radius` positions of an
/// edit; an edit lies within any radius of itself.
pub open spec fn near_edit(script: Seq<ChangeView>, radius: int, at: int) -> bool {
    exists|edit: int|
        0 <= edit < script.len() && is_edit(#[trigger] script[edit]) && at - radius <= edit <= at
            + radius
}

/// For each position of `script`, whether it lies within `radius` positions
/// of an edit.
pub fn edit_context(script: &Vec<Change>, radius: usize) -> (near: Vec<bool>)
    ensures
        near@.len() == script@.len(),
        forall|at: int|
            0 <= at < script@.len() ==> near@[at] == near_edit(
                change_views(script@),
                radius as int,
                at,
            ),
{
    let ghost changes = change_views(script@);
    let count = script.len();
    let mut near: Vec<bool> = Vec::new();
    let mut seen = false;
    let mut last: usize = 0;
    let mut at: usize = 0;
    while at < count
        invariant
            changes == change_views(script@),
            count == script@.len(),
            at <= count,
            near@.len() == at,
            seen ==> last < at && is_edit(changes[last as int]),
            forall|edit: int|
                (if seen { last < edit } else { 0 <= edit }) && edit < at ==> !is_edit(
                    #[trigger] changes[edit],
                ),
            forall|k: int|
                0 <= k < at ==> near@[k] == (exists|edit: int|
                    0 <= edit <= k && is_edit(#[trigger] changes[edit]) && k - radius <= edit),
        decreases count - at,
    {
        match script[at].tag() {
            ChangeTag::Equal => {},
            _ => {
                seen = true;
                last = at;
            },
        }
        let close = seen && at - last <= radius;
        near.push(close);
        at += 1;
    }
    seen = false;
    while at > 0
        invariant
            changes == change_views(script@),
            count == script@.len(),
            at <= count,
            near@.len() == count,
            seen ==> at <= last < count && is_edit(changes[last as int]),
            forall|edit: int|
                at <= edit && (if seen { edit < last } else { edit < count }) ==> !is_edit(
                    #[trigger] changes[edit],
                ),
            forall|k: int|
                0 <= k < at ==> near@[k] == (exists|edit: int|
                    0 <= edit <= k && is_edit(#[trigger] changes[edit]) && k - radius <= edit),
            forall|k: int| at <= k < count ==> near@[k] == near_edit(changes, radius as int, k),
        decreases at,
    {
        at -= 1;
        match script[at].tag() {
            ChangeTag::Equal => {},
            _ => {
                seen = true;
                last = at;
            },
        }
        let close = near[at] || (seen && last - at <= radius);
        proof {
            if seen && last - at <= radius {
                assert(is_edit(changes[last as int]));
            }
        }
        near.set(at, close);
    }
    near
}

/// A run of consecutive changes of a script, with the position of its
/// first change in the script.
#[derive(Debug, PartialEq, Eq)]
pub struct Hunk {
    pub start: usize,
    pub changes: Vec<Change>,
}

/// The mathematical value of a [`Hunk`].
pub struct HunkView {
    pub start: int,
    pub changes: Seq<ChangeView>,
}

impl HunkView {
    /// The position in the script just behind the last change of the hunk.
    pub open spec fn end(self) -> int {
        self.start + self.changes.len()
    }
}

impl View for Hunk {
    type V = HunkView;

    open spec fn view(&self) -> HunkView {
        HunkView { start: self.start as int, changes: change_views(self.changes@) }
    }
}

impl Clone for Hunk {
    fn clone(&self) -> (hunk: Hunk)
        ensures
            hunk@ == self@,
    {
        let changes = self.changes.clone();
        assert(change_views(changes@) =~= change_views(self.changes@));
        Hunk { start: self.start, changes }
    }
}

/// The mathematical value of a vector of hunks.
pub open spec fn hunk_views(hunks: Seq<Hunk>) -> Seq<HunkView> {
    hunks.map_values(|hunk: Hunk| hunk@)
}

/// Whether `hunks` are the hunks of `script` for the context radius
/// `radius`: each is a run of the script, not empty, made of positions near
/// an edit; they come in the script's order with at least one position
/// between two of them; and every position near an edit is in one of them.
pub open spec fn are_hunks_of(hunks: Seq<HunkView>, script: Seq<ChangeView>, radius: int) -> bool {
    &&& forall|h: int|
        0 <= h < hunks.len() ==> {
            &&& 0 <= (#[trigger] hunks[h]).start < hunks[h].end() <= script.len()
            &&& hunks[h].changes == script.subrange(hunks[h].start, hunks[h].end())
        }
    &&& forall|h: int, at: int|
        0 <= h < hunks.len() && (#[trigger] hunks[h]).start <= at < hunks[h].end()
            ==> #[trigger] near_edit(script, radius, at)
    &&& forall|g: int, h: int|
        0 <= g < h < hunks.len() ==> (#[trigger] hunks[g]).end() < (#[trigger] hunks[h]).start
    &&& forall|at: int|
        0 <= at < script.len() && #[trigger] near_edit(script, radius, at) ==> exists|h: int|
            0 <= h < hunks.len() && (#[trigger] hunks[h]).start <= at < hunks[h].end()
}

/// The changes of all the hunks, one hunk behind the other.
pub open spec fn joined(hunks: Seq<HunkView>) -> Seq<ChangeView>
    decreases hunks.len(),
{
    if hunks.len() == 0 {
        Seq::empty()
    } else {
        joined(hunks.drop_last()) + hunks.last().changes
    }
}

/// Those of the first `count` changes of `script` that lie within `radius`
/// positions of an edit, in the script's order.
pub open spec fn shown_upto(script: Seq<ChangeView>, radius: int, count: int) -> Seq<ChangeView>
    decreases count,
{
    if count <= 0 {
        Seq::empty()
    } else if near_edit(script, radius, count - 1) {
        shown_upto(script, radius, count - 1).push(script[count - 1])
    } else {
        shown_upto(script, radius, count - 1)
    }
}

/// The changes of `script` that a diff with the context radius `radius`
/// shows: every edit, and every unchanged line within `radius` positions of
/// one.
pub open spec fn shown(script: Seq<ChangeView>, radius: int) -> Seq<ChangeView> {
    shown_upto(script, radius, script.len() as int)
}

/// Of a script without an edit nothing is shown.
pub proof fn lemma_nothing_shown_without_edit(script: Seq<ChangeView>, radius: int)
    requires
        forall|at: int| 0 <= at < script.len() ==> !is_edit(#[trigger] script[at]),
    ensures
        shown(script, radius) == Seq::<ChangeView>::empty(),
{
    lemma_nothing_shown_upto(script, radius, script.len() as int);
}

proof fn lemma_nothing_shown_upto(script: Seq<ChangeView>, radius: int, count: int)
    requires
        forall|at: int| 0 <= at < script.len() ==> !is_edit(#[trigger] script[at]),
    ensures
        shown_upto(script, radius, count) == Seq::<ChangeView>::empty(),
    decreases count,
{
    if count > 0 {
        lemma_nothing_shown_upto(script, radius, count - 1);
    }
}

/// Of a script made of edits alone everything is shown.
pub proof fn lemma_all_shown_of_edits(script: Seq<ChangeView>, radius: int)
    requires
        0 <= radius,
        forall|at: int| 0 <= at < script.len() ==> is_edit(#[trigger] script[at]),
    ensures
        shown(script, radius) == script,
{
    assert forall|at: int| 0 <= at < script.len() implies near_edit(script, radius, at) by {
        assert(is_edit(script[at]));
    }
    lemma_shown_over_run(script, radius, 0, script.len() as int);
    assert(script.subrange(0, script.len() as int) =~= script);
}

/// Every edit of a script is shown, whatever the radius: the shown changes
/// hold as many `Delete` and as many `Insert` changes as the script.
pub proof fn lemma_edits_are_shown(script: Seq<ChangeView>, radius: int)
    requires
        0 <= radius,
    ensures
        count_of(shown(script, radius), ChangeTag::Delete) == count_of(script, ChangeTag::Delete),
        count_of(shown(script, radius), ChangeTag::Insert) == count_of(script, ChangeTag::Insert),
{
    lemma_edits_shown_upto(script, radius, script.len() as int);
    assert(script.take(script.len() as int) =~= script);
}

proof fn lemma_edits_shown_upto(script: Seq<ChangeView>, radius: int, count: int)
    requires
        0 <= radius,
        0 <= count <= script.len(),
    ensures
        count_of(shown_upto(script, radius, count), ChangeTag::Delete) == count_of(
            script.take(count),
            ChangeTag::Delete,
        ),
        count_of(shown_upto(script, radius, count), ChangeTag::Insert) == count_of(
            script.take(count),
            ChangeTag::Insert,
        ),
    decreases count,
{
    if count > 0 {
        lemma_edits_shown_upto(script, radius, count - 1);
        assert(script.take(count).drop_last() =~= script.take(count - 1));
        if near_edit(script, radius, count - 1) {
            assert(shown_upto(script, radius, count).drop_last() =~= shown_upto(
                script,
                radius,
                count - 1,
            ));
        }
    }
}

/// A position just before or just behind a hunk is not near an edit.
proof fn lemma_beside_hunk(
    hunks: Seq<HunkView>,
    script: Seq<ChangeView>,
    radius: int,
    h: int,
    at: int,
)
    requires
        are_hunks_of(hunks, script, radius),
        0 <= h < hunks.len(),
        0 <= at < script.len(),
        at == hunks[h].start - 1 || at == hunks[h].end(),
    ensures
        !near_edit(script, radius, at),
{
    if near_edit(script, radius, at) {
        // the position would lie in another hunk, with no position between the two
        let g = choose|g: int| 0 <= g < hunks.len() && (#[trigger] hunks[g]).start <= at
            < hunks[g].end();
        assert(g != h);
        if g < h {
            assert(hunks[g].end() < hunks[h].start);
        } else {
            assert(hunks[h].end() < hunks[g].start);
        }
        assert(false);
    }
}

/// A hunk reaches as far as the context does: the position before its
/// first change and the position behind its last are not near an edit.
pub proof fn lemma_hunks_are_maximal(
    hunks: Seq<HunkView>,
    script: Seq<ChangeView>,
    radius: int,
    h: int,
)
    requires
        are_hunks_of(hunks, script, radius),
        0 <= h < hunks.len(),
    ensures
        hunks[h].start > 0 ==> !near_edit(script, radius, hunks[h].start - 1),
        hunks[h].end() < script.len() ==> !near_edit(script, radius, hunks[h].end()),
{
    if hunks[h].start > 0 {
        lemma_beside_hunk(hunks, script, radius, h, hunks[h].start - 1);
    }
    if hunks[h].end() < script.len() {
        lemma_beside_hunk(hunks, script, radius, h, hunks[h].end());
    }
}

/// A script has one sequence of hunks for a radius, and no other.
pub proof fn lemma_hunks_are_unique(
    first: Seq<HunkView>,
    second: Seq<HunkView>,
    script: Seq<ChangeView>,
    radius: int,
)
    requires
        are_hunks_of(first, script, radius),
        are_hunks_of(second, script, radius),
    ensures
        first == second,
{
    lemma_hunks_agree_upto(first, second, script, radius, first.len() as int);
    lemma_hunks_agree_upto(second, first, script, radius, second.len() as int);
    assert(first =~= second);
}

/// Of two sequences of hunks of one script, the second has a hunk for each
/// of the first `count` hunks of the first, the same one at the same place.
proof fn lemma_hunks_agree_upto(
    first: Seq<HunkView>,
    second: Seq<HunkView>,
    script: Seq<ChangeView>,
    radius: int,
    count: int,
)
    requires
        are_hunks_of(first, script, radius),
        are_hunks_of(second, script, radius),
        0 <= count <= first.len(),
    ensures
        count <= second.len(),
        forall|h: int| 0 <= h < count ==> first[h] == second[h],
    decreases count,
{
    if count > 0 {
        lemma_hunks_agree_upto(first, second, script, radius, count - 1);
        let h = count - 1;
        let ours = first[h];
        // the first change of the hunk is near an edit, so some hunk of `second` holds it
        assert(near_edit(script, radius, ours.start));
        let k = choose|k: int| 0 <= k < second.len() && (#[trigger] second[k]).start <= ours.start
            < second[k].end();
        if k < h {
            assert(second[k] == first[k]);
            assert(first[k].end() < first[h].start);
            assert(false);
        }
        assert(h < second.len());
        let theirs = second[h];
        if k > h {
            assert(second[h].end() < second[k].start);
        }
        // neither hunk begins before the other
        if theirs.start < ours.start {
            assert(near_edit(script, radius, theirs.start));
            let g = choose|g: int| 0 <= g < first.len() && (#[trigger] first[g]).start
                <= theirs.start < first[g].end();
            if g < h {
                assert(first[g] == second[g]);
                assert(second[g].end() < second[h].start);
            } else if g > h {
                assert(first[h].end() < first[g].start);
            }
            assert(false);
        }
        assert(theirs.start <= ours.start);
        if k > h {
            assert(false);
        }
        assert(k == h);
        assert(theirs.start == ours.start);
        // and neither ends before the other
        lemma_hunks_are_maximal(first, script, radius, h);
        lemma_hunks_are_maximal(second, script, radius, h);
        if ours.end() < theirs.end() {
            assert(near_edit(script, radius, ours.end()));
            assert(false);
        }
        if theirs.end() < ours.end() {
            assert(near_edit(script, radius, theirs.end()));
            assert(false);
        }
        assert(ours.changes == theirs.changes);
        assert(ours == theirs);
    }
}

/// Over a stretch of positions that are not near an edit nothing more is
/// shown.
proof fn lemma_shown_over_gap(script: Seq<ChangeView>, radius: int, from: int, to: int)
    requires
        0 <= from <= to <= script.len(),
        forall|at: int| from <= at < to ==> !near_edit(script, radius, at),
    ensures
        shown_upto(script, radius, to) == shown_upto(script, radius, from),
    decreases to - from,
{
    if from < to {
        lemma_shown_over_gap(script, radius, from, to - 1);
    }
}

/// Over a stretch of positions that are all near an edit every change is
/// shown.
proof fn lemma_shown_over_run(script: Seq<ChangeView>, radius: int, from: int, to: int)
    requires
        0 <= from <= to <= script.len(),
        forall|at: int| from <= at < to ==> near_edit(script, radius, at),
    ensures
        shown_upto(script, radius, to) == shown_upto(script, radius, from) + script.subrange(
            from,
            to,
        ),
    decreases to - from,
{
    if from < to {
        lemma_shown_over_run(script, radius, from, to - 1);
        assert(script.subrange(from, to) =~= script.subrange(from, to - 1).push(script[to - 1]));
        assert(shown_upto(script, radius, to) =~= shown_upto(script, radius, from)
            + script.subrange(from, to));
    } else {
        assert(shown_upto(script, radius, to) =~= shown_upto(script, radius, from)
            + script.subrange(from, to));
    }
}

/// The first `count` hunks of a script, one behind the other, are what is
/// shown of the script up to the end of the last of them.
proof fn lemma_hunks_join_upto(
    hunks: Seq<HunkView>,
    script: Seq<ChangeView>,
    radius: int,
    count: int,
)
    requires
        are_hunks_of(hunks, script, radius),
        0 <= count <= hunks.len(),
    ensures
        joined(hunks.take(count)) == shown_upto(
            script,
            radius,
            if count == 0 {
                0
            } else {
                hunks[count - 1].end()
            },
        ),
    decreases count,
{
    if count > 0 {
        lemma_hunks_join_upto(hunks, script, radius, count - 1);
        let hunk = hunks[count - 1];
        let reached = if count == 1 {
            0
        } else {
            hunks[count - 2].end()
        };
        assert(hunks.take(count).drop_last() =~= hunks.take(count - 1));
        assert forall|at: int| reached <= at < hunk.start implies !near_edit(
            script,
            radius,
            at,
        ) by {
            if near_edit(script, radius, at) {
                let g = choose|g: int| 0 <= g < hunks.len() && (#[trigger] hunks[g]).start <= at
                    < hunks[g].end();
                if g < count - 2 {
                    assert(hunks[g].end() < hunks[count - 2].start);
                } else if g > count - 1 {
                    assert(hunks[count - 1].end() < hunks[g].start);
                }
                assert(false);
            }
        }
        if count > 1 {
            assert(hunks[count - 2].end() < hunks[count - 1].start);
        }
        lemma_shown_over_gap(script, radius, reached, hunk.start);
        lemma_shown_over_run(script, radius, hunk.start, hunk.end());
    }
}

/// The union of the hunks: the hunks of a script, one behind the other, are
/// the changes that are shown of it, no more and no fewer.
pub proof fn lemma_hunks_join_to_shown(hunks: Seq<HunkView>, script: Seq<ChangeView>, radius: int)
    requires
        are_hunks_of(hunks, script, radius),
    ensures
        joined(hunks) == shown(script, radius),
{
    let count = hunks.len() as int;
    lemma_hunks_join_upto(hunks, script, radius, count);
    assert(hunks.take(count) =~= hunks);
    let reached = if count == 0 {
        0
    } else {
        hunks[count - 1].end()
    };
    assert forall|at: int| reached <= at < script.len() implies !near_edit(script, radius, at) by {
        if near_edit(script, radius, at) {
            let g = choose|g: int| 0 <= g < hunks.len() && (#[trigger] hunks[g]).start <= at
                < hunks[g].end();
            if g < count - 1 {
                assert(hunks[g].end() < hunks[count - 1].start);
            }
            assert(false);
        }
    }
    lemma_shown_over_gap(script, radius, reached, script.len() as int);
}

/// Whether `hunks` are the hunks of `script` as far as they end before
/// `bound`: what `are_hunks_of` asks, with every hunk ending before `bound`
/// and the positions before `bound` that are near an edit in one of them.
pub open spec fn are_hunks_before(
    hunks: Seq<HunkView>,
    script: Seq<ChangeView>,
    radius: int,
    bound: int,
) -> bool {
    &&& forall|h: int|
        0 <= h < hunks.len() ==> {
            &&& 0 <= (#[trigger] hunks[h]).start < hunks[h].end() <= script.len()
            &&& hunks[h].end() < bound
            &&& hunks[h].changes == script.subrange(hunks[h].start, hunks[h].end())
        }
    &&& forall|h: int, at: int|
        0 <= h < hunks.len() && (#[trigger] hunks[h]).start <= at < hunks[h].end()
            ==> #[trigger] near_edit(script, radius, at)
    &&& forall|g: int, h: int|
        0 <= g < h < hunks.len() ==> (#[trigger] hunks[g]).end() < (#[trigger] hunks[h]).start
    &&& forall|at: int|
        0 <= at < bound && at < script.len() && #[trigger] near_edit(script, radius, at)
            ==> exists|h: int|
            0 <= h < hunks.len() && (#[trigger] hunks[h]).start <= at < hunks[h].end()
}

/// A run of positions near an edit that begins where the hunks so far are
/// bounded, and that no position near an edit follows before `bound`, is
/// the next hunk.
proof fn lemma_hunk_closed(
    earlier: Seq<HunkView>,
    hunk: HunkView,
    script: Seq<ChangeView>,
    radius: int,
    bound: int,
)
    requires
        are_hunks_before(earlier, script, radius, hunk.start),
        0 <= hunk.start < hunk.end() <= script.len(),
        hunk.changes == script.subrange(hunk.start, hunk.end()),
        forall|at: int| hunk.start <= at < hunk.end() ==> near_edit(script, radius, at),
        hunk.end() < bound,
        forall|at: int|
            hunk.end() <= at < bound && at < script.len() ==> !near_edit(script, radius, at),
    ensures
        are_hunks_before(earlier.push(hunk), script, radius, bound),
{
    let hunks = earlier.push(hunk);
    assert forall|h: int| 0 <= h < hunks.len() implies {
        &&& 0 <= (#[trigger] hunks[h]).start < hunks[h].end() <= script.len()
        &&& hunks[h].end() < bound
        &&& hunks[h].changes == script.subrange(hunks[h].start, hunks[h].end())
    } by {
        if h < earlier.len() {
            assert(hunks[h] == earlier[h]);
        }
    }
    assert forall|h: int, at: int|
        0 <= h < hunks.len() && (#[trigger] hunks[h]).start <= at < hunks[h].end()
            implies #[trigger] near_edit(script, radius, at) by {
        if h < earlier.len() {
            assert(hunks[h] == earlier[h]);
        }
    }
    assert forall|g: int, h: int| 0 <= g < h < hunks.len() implies (#[trigger] hunks[g]).end() < (
    #[trigger] hunks[h]).start by {
        assert(hunks[g] == earlier[g]);
        if h < earlier.len() {
            assert(hunks[h] == earlier[h]);
        }
    }
    assert forall|at: int|
        0 <= at < bound && at < script.len() && #[trigger] near_edit(
            script,
            radius,
            at,
        ) implies exists|h: int|
        0 <= h < hunks.len() && (#[trigger] hunks[h]).start <= at < hunks[h].end() by {
        if at < hunk.start {
            let h = choose|h: int|
                0 <= h < earlier.len() && (#[trigger] earlier[h]).start <= at < earlier[h].end();
            assert(hunks[h] == earlier[h]);
        } else {
            assert(hunks[earlier.len() as int] == hunk);
        }
    }
}

/// Appends to `hunks` the hunk that starts at `start` and holds `changes`.
fn close_hunk(hunks: &mut Vec<Hunk>, start: usize, changes: Vec<Change>)
    ensures
        hunk_views(final(hunks)@) == hunk_views(old(hunks)@).push(
            HunkView { start: start as int, changes: change_views(changes@) },
        ),
{
    let ghost earlier = hunk_views(hunks@);
    let hunk = Hunk { start, changes };
    hunks.push(hunk);
    assert(hunk_views(hunks@) =~= earlier.push(hunk@));
}

/// Groups the changes of `script` into hunks with `context_radius` lines of
/// context around the edits.
pub fn group_into_hunks(script: &Vec<Change>, context_radius: usize) -> (hunks: Vec<Hunk>)
    ensures
        are_hunks_of(hunk_views(hunks@), change_views(script@), context_radius as int),
        joined(hunk_views(hunks@)) == shown(change_views(script@), context_radius as int),
{
    let ghost changes = change_views(script@);
    let ghost radius = context_radius as int;
    let near = edit_context(script, context_radius);
    let count = script.len();
    let mut hunks: Vec<Hunk> = Vec::new();
    let mut pending: Vec<Change> = Vec::new();
    let mut start: usize = 0;
    let mut at: usize = 0;
    while at < count
        invariant
            changes == change_views(script@),
            radius == context_radius as int,
            count == script@.len(),
            near@.len() == count,
            forall|k: int| 0 <= k < count ==> near@[k] == near_edit(changes, radius, k),
            start <= at <= count,
            pending@.len() == 0 ==> start == at,
            change_views(pending@) == changes.subrange(start as int, at as int),
            forall|k: int| start <= k < at ==> near_edit(changes, radius, k),
            are_hunks_before(hunk_views(hunks@), changes, radius, start as int),
        decreases count - at,
    {
        if near[at] {
            let ghost before = change_views(pending@);
            let change = script[at].clone();
            pending.push(change);
            assert(change_views(pending@) =~= before.push(changes[at as int]));
            at += 1;
        } else {
            if pending.len() > 0 {
                proof {
                    let hunk = HunkView { start: start as int, changes: change_views(pending@) };
                    lemma_hunk_closed(hunk_views(hunks@), hunk, changes, radius, at + 1);
                }
                close_hunk(&mut hunks, start, pending);
                pending = Vec::new();
            }
            at += 1;
            start = at;
            assert(change_views(pending@) =~= changes.subrange(start as int, at as int));
        }
    }
    if pending.len() > 0 {
        proof {
            let hunk = HunkView { start: start as int, changes: change_views(pending@) };
            lemma_hunk_closed(hunk_views(hunks@), hunk, changes, radius, count + 1);
        }
        close_hunk(&mut hunks, start, pending);
    }
    proof {
        lemma_hunks_join_to_shown(hunk_views(hunks@), changes, radius);
    }
    hunks
}

} // verus!
