//! What always holds of paths: of comparing, showing, dividing and joining them.

use vstd::prelude::*;
use crate::path;
use crate::path::{NameView, PartView, PathView, StepView};
use crate::text_laws;

verus! {

/// Two names are compared by what they are: two texts by their characters, two that are none
/// by their units, whatever is shown of them; a text and one that is none are never the same.
pub proof fn names_are_compared_exactly(a: NameView, b: NameView)
    ensures
        path::name_key(a) == path::name_key(b) <==> match (a, b) {
            (NameView::Text(x), NameView::Text(y)) => x == y,
            (NameView::Odd { units: x, .. }, NameView::Odd { units: y, .. }) => x == y,
            _ => false,
        },
        path::part_key(PartView::Name(a)) == path::part_key(PartView::Name(b))
            <==> path::name_key(a) == path::name_key(b),
{
}

/// Two paths are the same exactly where they have as many parts and each is the same as the
/// other's: a drive or share by its key, a root as a root, a name by its name. What stands
/// between the parts does not count.
pub proof fn paths_are_compared_part_by_part(a: PathView, b: PathView)
    ensures
        path::same(a, b) <==> a.steps.len() == b.steps.len() && forall|i: int|
            0 <= i < a.steps.len() ==> same_part((#[trigger] a.steps[i]).part, b.steps[i].part),
{
    let n = a.steps.len();
    assert forall|i: int| 0 <= i < n && n == b.steps.len() implies (path::keys(a)[i] == path::keys(b)[i])
        == same_part((#[trigger] a.steps[i]).part, b.steps[i].part) by {
        match (a.steps[i].part, b.steps[i].part) {
            (PartView::Name(x), PartView::Name(y)) => names_are_compared_exactly(x, y),
            _ => {},
        }
    }
    if n == b.steps.len() && (forall|i: int|
        0 <= i < n ==> same_part((#[trigger] a.steps[i]).part, b.steps[i].part)) {
        assert forall|i: int| 0 <= i < n implies path::keys(a)[i] == path::keys(b)[i] by {
            assert(same_part(a.steps[i].part, b.steps[i].part));
        }
        assert(path::keys(a) =~= path::keys(b));
    }
    if path::same(a, b) {
        assert(path::keys(a).len() == path::keys(b).len());
    }
}

/// Whether two parts are the same.
pub open spec fn same_part(a: PartView, b: PartView) -> bool {
    match (a, b) {
        (PartView::Prefix { key: x, .. }, PartView::Prefix { key: y, .. }) => same_name(x, y),
        (PartView::Root { .. }, PartView::Root { .. }) => true,
        (PartView::Current, PartView::Current) => true,
        (PartView::Parent, PartView::Parent) => true,
        (PartView::Name(x), PartView::Name(y)) => same_name(x, y),
        _ => false,
    }
}

/// Whether two names are the same.
pub open spec fn same_name(a: NameView, b: NameView) -> bool {
    match (a, b) {
        (NameView::Text(x), NameView::Text(y)) => x == y,
        (NameView::Odd { units: x, .. }, NameView::Odd { units: y, .. }) => x == y,
        _ => false,
    }
}

/// A path is shown as it is written: its steps one after another, each with what stands before
/// its part, and what stands after the last.
pub proof fn a_path_is_shown_step_by_step(
    a: Seq<StepView>,
    b: Seq<StepView>,
    step: StepView,
    tail: Seq<char>,
    bar: char,
)
    ensures
        path::steps_text(a + b) == path::steps_text(a) + path::steps_text(b),
        path::steps_text(seq![step]) == step.lead + path::part_text(step.part),
        path::path_text(PathView { steps: a, tail, bar }) == path::steps_text(a) + tail,
        path::steps_text(seq![]).len() == 0,
    decreases b.len(),
{
    let one = seq![step];
    assert(one.drop_last() =~= Seq::<StepView>::empty());
    assert(path::steps_text(one.drop_last()).len() == 0);
    assert(path::steps_text(one) =~= step.lead + path::part_text(step.part));
    if b.len() == 0 {
        assert(a + b =~= a);
        assert(path::steps_text(a) + path::steps_text(b) =~= path::steps_text(a));
    } else {
        a_path_is_shown_step_by_step(a, b.drop_last(), step, tail, bar);
        assert((a + b).drop_last() =~= a + b.drop_last());
        assert(path::steps_text(a + b) =~= path::steps_text(a) + path::steps_text(b));
    }
}

/// A name is shown as its text, or as what is shown of it; the other parts as they are written.
pub proof fn a_part_is_shown_as_it_is_written(text: Seq<char>, units: Seq<u16>, shown: Seq<char>)
    ensures
        path::part_text(PartView::Name(NameView::Text(text))) == text,
        path::part_text(PartView::Name(NameView::Odd { units, shown })) == shown,
        path::part_text(PartView::Root { written: text }) == text,
        path::part_text(PartView::Current) == "."@,
        path::part_text(PartView::Parent) == ".."@,
        path::name_text(NameView::Text(text)) == text,
        path::name_text(NameView::Odd { units, shown }) == shown,
{
}

/// A part that is added stands at the end, after a separator where one is due and none is
/// there, and never after two.
pub proof fn an_added_part_stands_at_the_end(p: PathView, part: PartView)
    ensures
        ({
            let longer = path::pushed(p, part);
            let was = path::path_text(p);
            let gap = path::gap(p, part);
            let parted = was.len() == 0 || was.last() == p.bar || was.last() == '/';
            &&& path::path_text(longer) == was + gap + path::part_text(part)
            &&& path::keys(longer) == path::keys(p).push(path::part_key(part))
            &&& longer.bar == p.bar
            &&& gap.len() == 0 || gap == seq![p.bar]
            &&& part is Name ==> (gap.len() == 0 <==> parted || path::is_bare_drive(p))
            &&& parted ==> gap.len() == 0
            &&& path::last_name(longer) == (match part {
                PartView::Name(name) => Some(path::name_text(name)),
                _ => None,
            })
            &&& part is Name ==> path::parent(longer) is Some && path::same(
                path::parent(longer)->0,
                p,
            )
        }),
{
    let longer = path::pushed(p, part);
    assert(longer.steps.drop_last() =~= p.steps);
    assert(path::path_text(longer) =~= path::path_text(p) + path::gap(p, part) + path::part_text(
        part,
    ));
    assert(path::keys(longer) =~= path::keys(p).push(path::part_key(part)));
    if let Some(around) = path::parent(longer) {
        assert(path::keys(around) =~= path::keys(p));
    }
}

/// Parts are added one after another.
pub proof fn parts_are_added_in_order(p: PathView, a: Seq<PartView>, b: Seq<PartView>, part: PartView)
    ensures
        path::joined(p, a + b) == path::joined(path::joined(p, a), b),
        path::joined(p, seq![part]) == path::pushed(p, part),
        path::joined(p, seq![]) == p,
    decreases b.len(),
{
    let one = seq![part];
    assert(one.drop_last() =~= Seq::<PartView>::empty());
    assert(path::joined(p, one.drop_last()) == p);
    assert(one.last() == part);
    if b.len() == 0 {
        assert(a + b =~= a);
    } else {
        parts_are_added_in_order(p, a, b.drop_last(), part);
        assert((a + b).drop_last() =~= a + b.drop_last());
        assert((a + b).last() == b.last());
    }
}

/// A path strips off another exactly where its parts are the first of the other's. What is left
/// has the rest of the parts, and is shown as it stands in the path: what is shown of the path
/// ends with it, but for what stands after the last part.
pub proof fn stripping_leaves_the_rest(p: PathView, base: PathView)
    ensures
        match path::below(p, base) {
            Some(rest) => {
                &&& path::keys(p) == path::keys(base) + path::keys(rest)
                &&& rest.tail.len() == 0
                &&& rest.bar == p.bar
                &&& forall|i: int|
                    0 <= i < rest.steps.len() ==> (#[trigger] rest.steps[i]).part == p.steps[
                    base.steps.len() + i].part
                &&& text_laws::ends(path::steps_text(p.steps), path::path_text(rest))
            },
            None => base.steps.len() > p.steps.len() || path::keys(p).take(base.steps.len() as int)
                != path::keys(base),
        },
{
    if let Some(rest) = path::below(p, base) {
        let n = base.steps.len() as int;
        assert forall|i: int| 0 <= i < p.steps.len() implies path::keys(p)[i] == (path::keys(base)
            + path::keys(rest))[i] by {
            if i < n {
                assert(path::keys(p).take(n)[i] == path::keys(p)[i]);
            } else {
                assert(rest.steps[i - n].part == p.steps[i].part);
            }
        }
        assert(path::keys(p) =~= path::keys(base) + path::keys(rest));
        let led = p.steps.skip(n);
        a_path_is_shown_step_by_step(
            p.steps.take(n),
            led,
            StepView { lead: seq![], part: PartView::Current },
            seq![],
            p.bar,
        );
        assert(p.steps.take(n) + led =~= p.steps);
        lemma_unled(led);
        let whole = path::steps_text(p.steps);
        let left = path::path_text(rest);
        assert(left =~= path::steps_text(rest.steps));
        let inner = path::steps_text(led);
        assert(inner.subrange(inner.len() - left.len(), inner.len() as int) == left);
        assert(whole.subrange(whole.len() - left.len(), whole.len() as int) =~= inner.subrange(
            inner.len() - left.len(),
            inner.len() as int,
        ));
    }
}

proof fn lemma_unled(steps: Seq<StepView>)
    ensures
        text_laws::ends(path::steps_text(steps), path::steps_text(path::unled(steps))),
    decreases steps.len(),
{
    let bare = path::unled(steps);
    let with = path::steps_text(steps);
    let without = path::steps_text(bare);
    if steps.len() == 0 {
        assert(with.subrange(0, 0) =~= without);
    } else if steps.len() == 1 {
        assert(steps.drop_last() =~= Seq::<StepView>::empty());
        assert(bare.drop_last() =~= Seq::<StepView>::empty());
        assert(path::steps_text(steps.drop_last()).len() == 0);
        let text = path::part_text(steps[0].part);
        assert(without =~= text);
        assert(with =~= steps[0].lead + text);
        assert(with.subrange(with.len() - without.len(), with.len() as int) =~= without);
    } else {
        lemma_unled(steps.drop_last());
        assert(bare.drop_last() =~= path::unled(steps.drop_last()));
        assert(bare.last() == steps.last());
        let a = path::steps_text(steps.drop_last());
        let b = path::steps_text(bare.drop_last());
        let more = steps.last().lead + path::part_text(steps.last().part);
        assert(with =~= a + more);
        assert(without =~= b + more);
        assert(with.subrange(with.len() - without.len(), with.len() as int) =~= a.subrange(
            a.len() - b.len(),
            a.len() as int,
        ) + more);
    }
}

/// The folder around a path has all its parts but the last; a root, a drive and the empty path
/// have none around them.
pub proof fn the_folder_around_has_all_parts_but_the_last(p: PathView)
    ensures
        match path::parent(p) {
            Some(around) => p.steps.len() > 0 && path::keys(around) == path::keys(p).drop_last(),
            None => p.steps.len() == 0 || p.steps.last().part is Root
                || p.steps.last().part is Prefix,
        },
        match path::last_name(p) {
            Some(name) => p.steps.len() > 0 && p.steps.last().part is Name && name
                == path::part_text(p.steps.last().part),
            None => p.steps.len() == 0 || !(p.steps.last().part is Name),
        },
{
    if let Some(around) = path::parent(p) {
        assert(path::keys(around) =~= path::keys(p).drop_last());
    }
}

/// A part by itself is the part, as text: of one that is text it is the same part, and it is
/// shown as the part is, but for a root, which is a separator.
pub proof fn a_part_by_itself_is_the_part(part: PartView, bar: char)
    ensures
        !(part is Root) ==> path::part_text(path::plain(part, bar)) == path::part_text(part),
        part is Root ==> path::plain(part, bar) == (PartView::Root { written: seq![bar] }),
        !(part matches PartView::Name(NameView::Odd { .. })) ==> path::part_key(
            path::plain(part, bar),
        ) == path::part_key(part),
        part matches PartView::Name(name) ==> path::plain(part, bar) == PartView::Name(
            NameView::Text(path::name_text(name)),
        ),
{
}

} // verus!
