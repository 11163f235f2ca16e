//! Edit scripts: the line-by-line changes that turn one sequence of lines
//! into another.

use vstd::prelude::*;

verus! {

/// What a change does with its line.
#[derive(Clone, Copy, Debug, PartialEq, Eq, Structural)]
pub enum ChangeTag {
    /// The line stands in both texts.
    Equal,
    /// The line stands in the old text only.
    Delete,
    /// The line stands in the new text only.
    Insert,
}

/// One step of an edit script, with the line it is about.
#[derive(Debug, PartialEq, Eq)]
pub enum Change {
    Equal(String),
    Delete(String),
    Insert(String),
}

/// The mathematical value of a [`Change`].
pub struct ChangeView {
    pub tag: ChangeTag,
    pub line: Seq<char>,
}

impl View for Change {
    type V = ChangeView;

    open spec fn view(&self) -> ChangeView {
        match self {
            Change::Equal(line) => ChangeView { tag: ChangeTag::Equal, line: line@ },
            Change::Delete(line) => ChangeView { tag: ChangeTag::Delete, line: line@ },
            Change::Insert(line) => ChangeView { tag: ChangeTag::Insert, line: line@ },
        }
    }
}

impl Change {
    /// A change with the given tag and line.
    pub fn new(tag: ChangeTag, line: String) -> (change: Change)
        ensures
            change@ == (ChangeView { tag, line: line@ }),
    {
        match tag {
            ChangeTag::Equal => Change::Equal(line),
            ChangeTag::Delete => Change::Delete(line),
            ChangeTag::Insert => Change::Insert(line),
        }
    }

    /// The tag of the change.
    pub fn tag(&self) -> (tag: ChangeTag)
        ensures
            tag == self@.tag,
    {
        match self {
            Change::Equal(_) => ChangeTag::Equal,
            Change::Delete(_) => ChangeTag::Delete,
            Change::Insert(_) => ChangeTag::Insert,
        }
    }

    /// The line of the change.
    pub fn line(&self) -> (line: &String)
        ensures
            line@ == self@.line,
    {
        match self {
            Change::Equal(line) => line,
            Change::Delete(line) => line,
            Change::Insert(line) => line,
        }
    }
}

impl Clone for Change {
    fn clone(&self) -> (change: Change)
        ensures
            change@ == self@,
    {
        Change::new(self.tag(), self.line().clone())
    }
}

/// The mathematical value of a vector of changes.
pub open spec fn change_views(script: Seq<Change>) -> Seq<ChangeView> {
    script.map_values(|change: Change| change@)
}

/// The lines that a script takes from the old text: those of its `Equal`
/// and `Delete` changes, in order.
pub open spec fn old_side(script: Seq<ChangeView>) -> Seq<Seq<char>>
    decreases script.len(),
{
    if script.len() == 0 {
        Seq::empty()
    } else if script.last().tag == ChangeTag::Insert {
        old_side(script.drop_last())
    } else {
        old_side(script.drop_last()).push(script.last().line)
    }
}

/// The lines that a script gives to the new text: those of its `Equal` and
/// `Insert` changes, in order.
pub open spec fn new_side(script: Seq<ChangeView>) -> Seq<Seq<char>>
    decreases script.len(),
{
    if script.len() == 0 {
        Seq::empty()
    } else if script.last().tag == ChangeTag::Delete {
        new_side(script.drop_last())
    } else {
        new_side(script.drop_last()).push(script.last().line)
    }
}

/// Whether `script` is an edit script from `old` to `new`: its old side is
/// `old` and its new side is `new`.
pub open spec fn transforms(
    script: Seq<ChangeView>,
    old: Seq<Seq<char>>,
    new: Seq<Seq<char>>,
) -> bool {
    old_side(script) == old && new_side(script) == new
}

/// One change with the given tag for each of `lines`.
pub open spec fn tagged(tag: ChangeTag, lines: Seq<Seq<char>>) -> Seq<ChangeView> {
    lines.map_values(|line: Seq<char>| ChangeView { tag, line })
}

/// The number of changes of `script` that carry `tag`.
pub open spec fn count_of(script: Seq<ChangeView>, tag: ChangeTag) -> nat
    decreases script.len(),
{
    if script.len() == 0 {
        0
    } else if script.last().tag == tag {
        count_of(script.drop_last(), tag) + 1
    } else {
        count_of(script.drop_last(), tag)
    }
}

/// The old side of a script has a line for each `Equal` and each `Delete`
/// change, the new side one for each `Equal` and each `Insert` change.
pub proof fn lemma_lengths_of_sides(script: Seq<ChangeView>)
    ensures
        old_side(script).len() == count_of(script, ChangeTag::Equal) + count_of(
            script,
            ChangeTag::Delete,
        ),
        new_side(script).len() == count_of(script, ChangeTag::Equal) + count_of(
            script,
            ChangeTag::Insert,
        ),
    decreases script.len(),
{
    if script.len() > 0 {
        lemma_lengths_of_sides(script.drop_last());
    }
}

/// The two sides of a script that is made of two parts are made of the
/// sides of the parts.
pub proof fn lemma_sides_of_concat(first: Seq<ChangeView>, second: Seq<ChangeView>)
    ensures
        old_side(first + second) == old_side(first) + old_side(second),
        new_side(first + second) == new_side(first) + new_side(second),
    decreases second.len(),
{
    if second.len() > 0 {
        lemma_sides_of_concat(first, second.drop_last());
        assert((first + second).drop_last() =~= first + second.drop_last());
    }
}

/// The sides of a script whose changes all carry the same tag: the lines
/// themselves on the sides that the tag belongs to, nothing on the other.
pub proof fn lemma_sides_of_tagged(tag: ChangeTag, lines: Seq<Seq<char>>)
    ensures
        old_side(tagged(tag, lines)) == if tag == ChangeTag::Insert {
            Seq::<Seq<char>>::empty()
        } else {
            lines
        },
        new_side(tagged(tag, lines)) == if tag == ChangeTag::Delete {
            Seq::<Seq<char>>::empty()
        } else {
            lines
        },
    decreases lines.len(),
{
    if lines.len() > 0 {
        lemma_sides_of_tagged(tag, lines.drop_last());
        assert(tagged(tag, lines).drop_last() =~= tagged(tag, lines.drop_last()));
    }
}

/// The sides of the first `count` changes of a script begin the sides of
/// the whole script.
pub proof fn lemma_sides_of_prefix(script: Seq<ChangeView>, count: int)
    requires
        0 <= count <= script.len(),
    ensures
        old_side(script.take(count)).is_prefix_of(old_side(script)),
        new_side(script.take(count)).is_prefix_of(new_side(script)),
    decreases script.len() - count,
{
    if count == script.len() {
        assert(script.take(count) =~= script);
    } else {
        lemma_sides_of_prefix(script.drop_last(), count);
        assert(script.drop_last().take(count) =~= script.take(count));
    }
}

/// An edit script from no lines adds every line of `new`, in order, and
/// does nothing else.
pub proof fn lemma_script_from_nothing(script: Seq<ChangeView>, new: Seq<Seq<char>>)
    requires
        transforms(script, Seq::empty(), new),
    ensures
        script == tagged(ChangeTag::Insert, new),
    decreases script.len(),
{
    if script.len() > 0 {
        let before = script.drop_last();
        let last = script.last();
        if last.tag != ChangeTag::Insert {
            assert(old_side(script) == old_side(before).push(last.line));
            assert(old_side(script).len() > 0);
        }
        assert(new_side(script) == new_side(before).push(last.line));
        assert(new_side(before) =~= new.drop_last());
        lemma_script_from_nothing(before, new.drop_last());
        assert(script =~= before.push(last));
    }
    assert(script =~= tagged(ChangeTag::Insert, new));
}

/// An edit script to no lines removes every line of `old`, in order, and
/// does nothing else.
pub proof fn lemma_script_to_nothing(script: Seq<ChangeView>, old: Seq<Seq<char>>)
    requires
        transforms(script, old, Seq::empty()),
    ensures
        script == tagged(ChangeTag::Delete, old),
    decreases script.len(),
{
    if script.len() > 0 {
        let before = script.drop_last();
        let last = script.last();
        if last.tag != ChangeTag::Delete {
            assert(new_side(script) == new_side(before).push(last.line));
            assert(new_side(script).len() > 0);
        }
        assert(old_side(script) == old_side(before).push(last.line));
        assert(old_side(before) =~= old.drop_last());
        lemma_script_to_nothing(before, old.drop_last());
        assert(script =~= before.push(last));
    }
    assert(script =~= tagged(ChangeTag::Delete, old));
}

} // verus!
