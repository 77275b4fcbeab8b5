//! What a look-up in the tree finds, and what a change to it leaves as it was.

use vstd::prelude::*;
use crate::tree;
use crate::tree::NodeView;
use crate::tree_laws;

verus! {

/// Whether two nodes differ in nothing but what is under them.
pub open spec fn alike(a: NodeView, b: NodeView) -> bool {
    &&& a.name == b.name
    &&& a.kind == b.kind
    &&& a.is_dir == b.is_dir
    &&& a.pending == b.pending
    &&& a.denied == b.denied
}

// ------------------------------------------------------------------- looking

/// Whether `i` is the place of the first of these nodes with this name.
pub open spec fn is_first(nodes: Seq<NodeView>, name: Seq<char>, i: int) -> bool {
    &&& 0 <= i < nodes.len()
    &&& nodes[i].name == name
    &&& forall|j: int| 0 <= j < i ==> (#[trigger] nodes[j]).name != name
}

/// Whether `found` is the first child of `folder` with this name, or none where it has none.
pub open spec fn is_child(folder: NodeView, name: Seq<char>, found: Option<NodeView>) -> bool {
    match found {
        Some(child) => exists|i: int|
            #[trigger] is_first(folder.children, name, i) && folder.children[i] == child,
        None => forall|j: int|
            0 <= j < folder.children.len() ==> (#[trigger] folder.children[j]).name != name,
    }
}

/// Looking up goes down one name at a time: nothing leads to the node itself, and a list of
/// names leads where its last name leads from where the others do.
pub proof fn looking_up_goes_down(node: NodeView, names: Seq<Seq<char>>, name: Seq<char>)
    ensures
        names.len() == 0 ==> tree::at(node, names) == Some(node),
        tree::at(node, names) is None ==> tree::at(node, names.push(name)) is None,
        tree::at(node, names) is Some ==> is_child(
            tree::at(node, names)->0,
            name,
            tree::at(node, names.push(name)),
        ),
    decreases names.len(),
{
    let longer = names.push(name);
    if names.len() == 0 {
        tree_laws::lemma_child(node.children, name, 0);
        assert(longer[0] == name);
        assert(longer.skip(1) =~= Seq::<Seq<char>>::empty());
        if let Some(i) = tree::child(node, name) {
            assert(tree::at(node.children[i], longer.skip(1)) == Some(node.children[i]));
            assert(is_first(node.children, name, i));
        }
    } else {
        assert(longer[0] == names[0]);
        assert(longer.skip(1) =~= names.skip(1).push(name));
        if let Some(i) = tree::child(node, names[0]) {
            looking_up_goes_down(node.children[i], names.skip(1), name);
        }
    }
}

/// The focus follows the names as far as they resolve: where the first `k` lead somewhere and
/// one more leads nowhere, or there is no more, it is where those lead.
pub proof fn the_focus_goes_as_far_as_names_resolve(node: NodeView, names: Seq<Seq<char>>, k: int)
    requires
        0 <= k <= names.len(),
        tree::at(node, names.take(k)) is Some,
        k < names.len() ==> tree::at(node, names.take(k + 1)) is None,
    ensures
        tree::deepest(node, names) == tree::at(node, names.take(k))->0,
    decreases names.len(),
{
    if names.len() > 0 {
        let n = names.skip(1);
        if k == 0 {
            assert(names.take(1)[0] == names[0]);
            assert(names.take(1).skip(1) =~= Seq::<Seq<char>>::empty());
            if let Some(i) = tree::child(node, names[0]) {
                assert(tree::at(node.children[i], names.take(1).skip(1)) is Some);
            }
            assert(names.take(0) =~= Seq::<Seq<char>>::empty());
        } else {
            assert(names.take(k)[0] == names[0]);
            assert(names.take(k).skip(1) =~= n.take(k - 1));
            let i = tree::child(node, names[0])->0;
            if k < names.len() {
                assert(names.take(k + 1)[0] == names[0]);
                assert(names.take(k + 1).skip(1) =~= n.take(k));
            }
            the_focus_goes_as_far_as_names_resolve(node.children[i], n, k - 1);
        }
    } else {
        assert(names.take(k) =~= names);
    }
}

/// Names lead from folder to folder exactly where every one of them, and those before it, lead
/// to a folder.
pub proof fn a_trail_is_folders_all_the_way(node: NodeView, names: Seq<Seq<char>>)
    ensures
        tree::is_folder_trail(node, names) <==> forall|k: int|
            1 <= k <= names.len() ==> (#[trigger] tree::at(node, names.take(k)) matches Some(found)
                && found.is_dir),
    decreases names.len(),
{
    if names.len() > 0 {
        let n = names.skip(1);
        assert(names.take(1)[0] == names[0]);
        assert(names.take(1).skip(1) =~= Seq::<Seq<char>>::empty());
        if let Some(i) = tree::child(node, names[0]) {
            let inner = node.children[i];
            a_trail_is_folders_all_the_way(inner, n);
            assert(tree::at(inner, names.take(1).skip(1)) == Some(inner));
            assert(tree::at(node, names.take(1)) == Some(inner));
            assert forall|k: int| 2 <= k <= names.len() implies #[trigger] tree::at(
                node,
                names.take(k),
            ) == tree::at(inner, n.take(k - 1)) by {
                assert(names.take(k)[0] == names[0]);
                assert(names.take(k).skip(1) =~= n.take(k - 1));
            }
            if tree::is_folder_trail(node, names) {
                assert forall|k: int| 1 <= k <= names.len() implies (#[trigger] tree::at(
                    node,
                    names.take(k),
                ) matches Some(found) && found.is_dir) by {
                    if k > 1 {
                        assert(tree::at(inner, n.take(k - 1)) is Some);
                    }
                }
            } else if inner.is_dir {
                let k = choose|k: int|
                    1 <= k <= n.len() && !(#[trigger] tree::at(inner, n.take(k)) matches Some(found)
                        && found.is_dir);
                assert(tree::at(node, names.take(k + 1)) == tree::at(inner, n.take(k)));
            }
        } else {
            assert(tree::at(node, names.take(1)) is None);
        }
    }
}

// ------------------------------------------------------------------ reporting

/// What a scan reports of a place on the map is what is found there afterwards, exactly and
/// down to the file, where it is reported under the name of the place.
pub proof fn a_report_is_found(node: NodeView, names: Seq<Seq<char>>, new: NodeView)
    requires
        tree::at(node, names) is Some,
        names.len() > 0 ==> new.name == names.last(),
    ensures
        tree::at(tree::replaced(node, names, new), names) == Some(new),
    decreases names.len(),
{
    if names.len() > 0 {
        tree_laws::lemma_child(node.children, names[0], 0);
        let i = tree::child(node, names[0])->0;
        let inner = node.children[i];
        let n = names.skip(1);
        if n.len() > 0 {
            assert(n.last() == names.last());
        }
        a_report_is_found(inner, n, new);
        let whole = tree::replaced(node, names, new);
        let inside = tree::replaced(inner, n, new);
        lemma_replaced_name(inner, n, new);
        if n.len() == 0 {
            assert(names.last() == names[0]);
        }
        tree_laws::lemma_child_after_update(node, names[0], i, inside, whole);
        assert(whole.children[i] == inside);
    }
}

proof fn lemma_replaced_name(node: NodeView, names: Seq<Seq<char>>, new: NodeView)
    ensures
        names.len() > 0 ==> tree::replaced(node, names, new).name == node.name,
        names.len() == 0 ==> tree::replaced(node, names, new) == new,
{
}

/// What a scan reports of one place changes no other: what is neither above nor below it is
/// found as before, or is missing as before.
pub proof fn a_report_leaves_the_rest(
    node: NodeView,
    names: Seq<Seq<char>>,
    new: NodeView,
    other: Seq<Seq<char>>,
)
    requires
        tree::at(node, names) is Some,
        names.len() > 0 ==> new.name == names.last(),
        !tree_laws::begins_with(names, other),
        !tree_laws::begins_with(other, names),
    ensures
        tree::at(tree::replaced(node, names, new), other) == tree::at(node, other),
    decreases names.len(),
{
    assert(names.len() > 0) by {
        if names.len() == 0 {
            assert(other.take(0) =~= names);
        }
    }
    assert(other.len() > 0) by {
        if other.len() == 0 {
            assert(names.take(0) =~= other);
        }
    }
    tree_laws::lemma_child(node.children, names[0], 0);
    tree_laws::lemma_child(node.children, other[0], 0);
    let i = tree::child(node, names[0])->0;
    let n = names.skip(1);
    let whole = tree::replaced(node, names, new);
    let inside = tree::replaced(node.children[i], n, new);
    lemma_replaced_name(node.children[i], n, new);
    if n.len() == 0 {
        assert(names.last() == names[0]);
    }
    tree_laws::lemma_child_after_update(node, other[0], i, inside, whole);
    if let Some(j) = tree::child(node, other[0]) {
        if i == j {
            assert(other[0] == names[0]);
            lemma_begins_skip(names, other);
            lemma_begins_skip(other, names);
            if n.len() > 0 {
                assert(n.last() == names.last());
            }
            a_report_leaves_the_rest(node.children[i], n, new, other.skip(1));
        } else {
            assert(whole.children[j] == node.children[j]);
        }
    }
}

proof fn lemma_begins_skip(names: Seq<Seq<char>>, head: Seq<Seq<char>>)
    requires
        names.len() > 0,
        head.len() > 0,
        names[0] == head[0],
        !tree_laws::begins_with(names, head),
    ensures
        !tree_laws::begins_with(names.skip(1), head.skip(1)),
{
    if tree_laws::begins_with(names.skip(1), head.skip(1)) {
        let n = head.len() as int;
        assert(names.take(n) =~= head) by {
            assert forall|k: int| 0 <= k < n implies names[k] == head[k] by {
                if k > 0 {
                    assert(names.skip(1).take(n - 1)[k - 1] == head.skip(1)[k - 1]);
                }
            }
        }
    }
}

/// A report of a place that is not on the map changes nothing, in a tree that adds up.
pub proof fn a_report_of_nowhere_changes_nothing(
    node: NodeView,
    names: Seq<Seq<char>>,
    new: NodeView,
)
    requires
        tree_laws::adds_up(node),
        tree::at(node, names) is None,
    ensures
        tree::replaced(node, names, new) == node,
    decreases names.len(),
{
    tree_laws::lemma_child(node.children, names[0], 0);
    if let Some(i) = tree::child(node, names[0]) {
        let inner = node.children[i];
        assert(tree_laws::adds_up(inner));
        a_report_of_nowhere_changes_nothing(inner, names.skip(1), new);
        tree_laws::lemma_child_weighs_less(node, i);
        assert(node.children.update(i, inner) =~= node.children);
    }
}

// ------------------------------------------------------------------ above it

/// The folder that receives something has it as its last child and is otherwise as it was; the
/// folders above it have the children they had, and each of them weighs more by what came, up
/// to the most there can be. Nothing else of a folder changes.
pub proof fn a_graft_comes_last(
    node: NodeView,
    names: Seq<Seq<char>>,
    come: NodeView,
    k: int,
)
    requires
        tree::grafted(node, names, come) is Some,
        0 <= k <= names.len(),
    ensures
        ({
            let was = tree::at(node, names.take(k));
            let now = tree::at(tree::grafted(node, names, come)->0, names.take(k));
            &&& was is Some
            &&& now is Some
            &&& alike(now->0, was->0)
            &&& (now->0).size == (if (was->0).size + come.size <= u64::MAX {
                (was->0).size + come.size
            } else {
                u64::MAX as int
            })
            &&& (now->0).files == (if (was->0).files + come.files <= u32::MAX {
                (was->0).files + come.files
            } else {
                u32::MAX as int
            })
            &&& k == names.len() ==> (was->0).is_dir && (now->0).children == (was->0).children.push(
                come,
            )
            &&& k < names.len() ==> (now->0).children.len() == (was->0).children.len()
        }),
    decreases names.len(),
{
    let grown = tree::grafted(node, names, come)->0;
    if k == 0 {
        assert(names.take(0) =~= Seq::<Seq<char>>::empty());
        assert(tree::at(node, names.take(k)) == Some(node));
        assert(tree::at(grown, names.take(k)) == Some(grown));
        if names.len() > 0 {
            tree_laws::lemma_child(node.children, names[0], 0);
        }
    } else {
        tree_laws::lemma_child(node.children, names[0], 0);
        let i = tree::child(node, names[0])->0;
        let n = names.skip(1);
        let inner = tree::grafted(node.children[i], n, come)->0;
        a_graft_comes_last(node.children[i], n, come, k - 1);
        assert(names.take(k)[0] == names[0]);
        assert(names.take(k).skip(1) =~= n.take(k - 1));
        tree_laws::lemma_child_after_update(node, names[0], i, inner, grown);
        assert(grown.children[i] == inner);
    }
}

/// Something can be put wherever a folder is, and nowhere else.
pub proof fn a_folder_takes_anything(node: NodeView, names: Seq<Seq<char>>, come: NodeView)
    ensures
        tree::grafted(node, names, come) is Some <==> (tree::at(node, names) matches Some(place)
            && place.is_dir),
    decreases names.len(),
{
    if names.len() > 0 {
        if let Some(i) = tree::child(node, names[0]) {
            a_folder_takes_anything(node.children[i], names.skip(1), come);
        }
    }
}

/// Whether `now` has the children of `was` but for the first of this name, which is `gone`.
pub open spec fn loses(was: NodeView, now: NodeView, name: Seq<char>, gone: NodeView) -> bool {
    exists|i: int|
        #[trigger] is_first(was.children, name, i) && was.children[i] == gone && now.children
            == was.children.remove(i)
}

/// Whether `now` has the children of `was`, with `new` in the place of the first of this name.
pub open spec fn swaps(was: NodeView, now: NodeView, name: Seq<char>, new: NodeView) -> bool {
    exists|i: int|
        #[trigger] is_first(was.children, name, i) && now.children == was.children.update(i, new)
}

/// The folder that something is taken out of loses that child and no other, and keeps the rest
/// in order; the folders above it have the children they had, and each of them weighs less by
/// what went. Nothing else of a folder changes, and what comes out is what was there.
pub proof fn a_detach_takes_one(node: NodeView, names: Seq<Seq<char>>, k: int)
    requires
        tree::detached(node, names) is Some,
        0 <= k < names.len(),
    ensures
        ({
            let (kept, gone) = tree::detached(node, names)->0;
            let was = tree::at(node, names.take(k));
            let now = tree::at(kept, names.take(k));
            &&& tree::at(node, names) == Some(gone)
            &&& was is Some
            &&& now is Some
            &&& alike(now->0, was->0)
            &&& (now->0).size == (if (was->0).size >= gone.size {
                (was->0).size - gone.size
            } else {
                0
            })
            &&& (now->0).files == (if (was->0).files >= gone.files {
                (was->0).files - gone.files
            } else {
                0
            })
            &&& k < names.len() - 1 ==> (now->0).children.len() == (was->0).children.len()
            &&& k == names.len() - 1 ==> loses(was->0, now->0, names.last(), gone)
        }),
    decreases names.len(),
{
    let (kept, gone) = tree::detached(node, names)->0;
    tree_laws::lemma_child(node.children, names[0], 0);
    let i = tree::child(node, names[0])->0;
    let n = names.skip(1);
    if names.len() == 1 {
        assert(names.take(0) =~= Seq::<Seq<char>>::empty());
        assert(tree::at(node.children[i], n) == Some(node.children[i]));
        assert(gone == node.children[i]);
        assert(is_first(node.children, names.last(), i));
        assert(loses(node, kept, names.last(), gone));
        assert(tree::at(kept, names.take(k)) == Some(kept));
        assert(tree::at(node, names.take(k)) == Some(node));
    } else {
        let inner = (tree::detached(node.children[i], n)->0).0;
        a_detach_takes_one(node.children[i], n, if k == 0 { 0 } else { k - 1 });
        if k == 0 {
            assert(names.take(0) =~= Seq::<Seq<char>>::empty());
        } else {
            assert(names.take(k)[0] == names[0]);
            assert(names.take(k).skip(1) =~= n.take(k - 1));
            assert(n.last() == names.last());
            tree_laws::lemma_child_after_update(node, names[0], i, inner, kept);
            assert(kept.children[i] == inner);
        }
    }
}

/// Something can be taken out wherever something is, but for the whole.
pub proof fn whatever_is_there_can_be_taken_out(node: NodeView, names: Seq<Seq<char>>)
    ensures
        tree::detached(node, names) is Some <==> names.len() > 0 && tree::at(node, names) is Some,
    decreases names.len(),
{
    if names.len() > 0 {
        if let Some(i) = tree::child(node, names[0]) {
            if names.len() == 1 {
                assert(tree::at(node.children[i], names.skip(1)) is Some);
            } else {
                whatever_is_there_can_be_taken_out(node.children[i], names.skip(1));
            }
        }
    }
}

/// A report changes one child of the folder that it is in, and leaves the others where they
/// are; nothing but the sums changes in the folders above.
pub proof fn a_report_takes_its_place(
    node: NodeView,
    names: Seq<Seq<char>>,
    new: NodeView,
    k: int,
)
    requires
        tree::at(node, names) is Some,
        0 <= k < names.len(),
    ensures
        ({
            let was = tree::at(node, names.take(k));
            let now = tree::at(tree::replaced(node, names, new), names.take(k));
            &&& was is Some
            &&& now is Some
            &&& alike(now->0, was->0)
            &&& (now->0).children.len() == (was->0).children.len()
            &&& k == names.len() - 1 ==> swaps(was->0, now->0, names.last(), new)
        }),
    decreases names.len(),
{
    let whole = tree::replaced(node, names, new);
    tree_laws::lemma_child(node.children, names[0], 0);
    let i = tree::child(node, names[0])->0;
    let n = names.skip(1);
    let inner = tree::replaced(node.children[i], n, new);
    if k == 0 {
        assert(names.take(0) =~= Seq::<Seq<char>>::empty());
        assert(whole.children =~= node.children.update(i, inner));
        if names.len() == 1 {
            assert(inner == new);
            assert(is_first(node.children, names.last(), i));
        }
    } else {
        assert(names.take(k)[0] == names[0]);
        assert(names.take(k).skip(1) =~= n.take(k - 1));
        assert(n.last() == names.last());
        a_report_takes_its_place(node.children[i], n, new, k - 1);
        lemma_replaced_name(node.children[i], n, new);
        tree_laws::lemma_child_after_update(node, names[0], i, inner, whole);
        assert(whole.children[i] == inner);
    }
}

// ------------------------------------------------------------------- sealing

/// Sealing settles every node and changes nothing else of any: what is found before is found
/// after, with its name, its weight, its kind and what the walk was refused.
pub proof fn sealing_changes_nothing_else(node: NodeView, names: Seq<Seq<char>>)
    ensures
        match (tree::at(node, names), tree::at(tree::sealed(node), names)) {
            (Some(was), Some(now)) => {
                &&& !now.pending
                &&& now.name == was.name
                &&& now.size == was.size
                &&& now.files == was.files
                &&& now.kind == was.kind
                &&& now.is_dir == was.is_dir
                &&& now.denied == was.denied
                &&& now.children.len() == was.children.len()
                &&& forall|i: int|
                    0 <= i < was.children.len() ==> (#[trigger] now.children[i]).name
                        == was.children[i].name
            },
            (None, None) => true,
            _ => false,
        },
    decreases names.len(),
{
    let s = tree::sealed(node);
    if names.len() > 0 {
        lemma_sealed_child(node.children, s.children, names[0], 0);
        tree_laws::lemma_child(node.children, names[0], 0);
        if let Some(i) = tree::child(node, names[0]) {
            assert(s.children[i] == tree::sealed(node.children[i]));
            sealing_changes_nothing_else(node.children[i], names.skip(1));
        }
    } else {
        assert forall|i: int| 0 <= i < node.children.len() implies (#[trigger] s.children[i]).name
            == node.children[i].name by {
            lemma_sealed_name(node.children[i]);
        }
    }
}

proof fn lemma_sealed_name(node: NodeView)
    ensures
        tree::sealed(node).name == node.name,
{
}

proof fn lemma_sealed_child(a: Seq<NodeView>, b: Seq<NodeView>, name: Seq<char>, i: int)
    requires
        0 <= i,
        a.len() == b.len(),
        forall|k: int| 0 <= k < a.len() ==> #[trigger] b[k] == tree::sealed(a[k]),
    ensures
        tree::child_from(b, name, i) == tree::child_from(a, name, i),
    decreases a.len() - i,
{
    if i < a.len() {
        lemma_sealed_name(a[i]);
        assert(b[i].name == a[i].name);
        lemma_sealed_child(a, b, name, i + 1);
    }
}

// ------------------------------------------------------------------- refusals

/// The node that these places lead to, the first being the place of a child of `node`.
pub open spec fn by_place(node: NodeView, places: Seq<int>) -> Option<NodeView>
    decreases places.len(),
{
    if places.len() == 0 {
        Some(node)
    } else if 0 <= places[0] < node.children.len() {
        by_place(node.children[places[0]], places.skip(1))
    } else {
        None
    }
}

/// How that node is written, where `node` is written `trail`: the names on the way, with a bar
/// before each.
pub open spec fn trail_to(node: NodeView, trail: Seq<char>, places: Seq<int>) -> Seq<char>
    decreases places.len(),
{
    if places.len() == 0 {
        trail
    } else {
        let next = node.children[places[0]];
        trail_to(next, trail + seq!['/'] + next.name, places.skip(1))
    }
}

/// No refusal is hidden: every folder that the walk was not let into is among those that are
/// named, by the names that lead to it.
pub proof fn every_refusal_is_named(node: NodeView, trail: Seq<char>, places: Seq<int>)
    requires
        by_place(node, places) matches Some(found) && found.denied,
    ensures
        tree::refused(node, trail).contains(trail_to(node, trail, places)),
    decreases places.len(),
{
    let all = tree::refused(node, trail);
    if places.len() == 0 {
        assert(all[0] == trail);
    } else {
        let i = places[0];
        let next = node.children[i];
        let below = trail + seq!['/'] + next.name;
        every_refusal_is_named(next, below, places.skip(1));
        let wanted = trail_to(next, below, places.skip(1));
        lemma_refused_among(node, trail, node.children.len(), i, wanted);
        let among = tree::refused_among(node, trail, node.children.len());
        let k = choose|k: int| 0 <= k < among.len() && among[k] == wanted;
        assert(all[all.len() - among.len() + k] == wanted);
    }
}

proof fn lemma_refused_among(node: NodeView, trail: Seq<char>, n: nat, i: int, wanted: Seq<char>)
    requires
        n <= node.children.len(),
        0 <= i < n,
        tree::refused(
            node.children[i],
            trail + seq!['/'] + node.children[i].name,
        ).contains(wanted),
    ensures
        tree::refused_among(node, trail, n).contains(wanted),
    decreases n,
{
    let all = tree::refused_among(node, trail, n);
    let before = tree::refused_among(node, trail, (n - 1) as nat);
    let last = node.children[n - 1];
    let mine = tree::refused(last, trail + seq!['/'] + last.name);
    assert(all == before + mine);
    if i == n - 1 {
        let k = choose|k: int| 0 <= k < mine.len() && mine[k] == wanted;
        assert(all[before.len() + k] == wanted);
    } else {
        lemma_refused_among(node, trail, (n - 1) as nat, i, wanted);
        let k = choose|k: int| 0 <= k < before.len() && before[k] == wanted;
        assert(all[k] == wanted);
    }
}

/// No refusal is made up: whatever is named is a folder that the walk was not let into.
pub proof fn no_refusal_is_made_up(node: NodeView, trail: Seq<char>, k: int) -> (places: Seq<int>)
    requires
        0 <= k < tree::refused(node, trail).len(),
    ensures
        by_place(node, places) matches Some(found) && found.denied,
        tree::refused(node, trail)[k] == trail_to(node, trail, places),
    decreases node, node.children.len() + 1,
{
    let own: Seq<Seq<char>> = if node.denied { seq![trail] } else { seq![] };
    if k < own.len() {
        Seq::<int>::empty()
    } else {
        assert(tree::refused(node, trail)[k] == tree::refused_among(
            node,
            trail,
            node.children.len(),
        )[k - own.len()]);
        lemma_among_is_refused(node, trail, node.children.len(), k - own.len())
    }
}

proof fn lemma_among_is_refused(node: NodeView, trail: Seq<char>, n: nat, k: int) -> (places: Seq<
    int,
>)
    requires
        n <= node.children.len(),
        0 <= k < tree::refused_among(node, trail, n).len(),
    ensures
        by_place(node, places) matches Some(found) && found.denied,
        tree::refused_among(node, trail, n)[k] == trail_to(node, trail, places),
    decreases node, n,
{
    let before = tree::refused_among(node, trail, (n - 1) as nat);
    let last = node.children[n - 1];
    if k < before.len() {
        lemma_among_is_refused(node, trail, (n - 1) as nat, k)
    } else {
        let rest = no_refusal_is_made_up(
            last,
            trail + seq!['/'] + last.name,
            k - before.len(),
        );
        let places = seq![n - 1] + rest;
        assert(places[0] == n - 1);
        assert(places.skip(1) =~= rest);
        places
    }
}

/// As many are named as there is room for, and they are the first.
pub proof fn the_first_refusals_are_named(all: Seq<Seq<char>>, limit: nat)
    ensures
        tree::at_most(all, limit).len() == (if all.len() <= limit {
            all.len()
        } else {
            limit
        }),
        forall|i: int|
            0 <= i < tree::at_most(all, limit).len() ==> #[trigger] tree::at_most(all, limit)[i]
                == all[i],
{
}

/// Of a folder and what is under it, the folder comes first, and of two children the first
/// one's come first.
pub proof fn outer_refusals_come_first(node: NodeView, trail: Seq<char>, n: nat)
    requires
        n < node.children.len(),
    ensures
        node.denied ==> tree::refused(node, trail)[0] == trail,
        ({
            let own: Seq<Seq<char>> = if node.denied { seq![trail] } else { seq![] };
            &&& tree::refused(node, trail) == own + tree::refused_among(
                node,
                trail,
                node.children.len(),
            )
            &&& tree::refused_among(node, trail, 0).len() == 0
            &&& tree::refused_among(node, trail, n + 1) == tree::refused_among(node, trail, n)
                + tree::refused(
                node.children[n as int],
                trail + seq!['/'] + node.children[n as int].name,
            )
        }),
{
}

} // verus!
