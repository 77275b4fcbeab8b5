//! What always holds of the tree, whatever is taken out of it and put into it.

use vstd::prelude::*;
use crate::tree;
use crate::tree::NodeView;

verus! {

/// The bytes of these nodes.
pub open spec fn bytes_of(nodes: Seq<NodeView>) -> nat
    decreases nodes.len(),
{
    if nodes.len() == 0 {
        0
    } else {
        bytes_of(nodes.drop_last()) + nodes.last().size as nat
    }
}

/// The files of these nodes.
pub open spec fn files_of(nodes: Seq<NodeView>) -> nat
    decreases nodes.len(),
{
    if nodes.len() == 0 {
        0
    } else {
        files_of(nodes.drop_last()) + nodes.last().files as nat
    }
}

/// Every folder is the sum of what it holds, and only a folder holds anything.
pub open spec fn adds_up(node: NodeView) -> bool
    decreases node,
{
    &&& node.is_dir ==> node.size == bytes_of(node.children) && node.files == files_of(
        node.children,
    )
    &&& !node.is_dir ==> node.children.len() == 0
    &&& forall|i: int| 0 <= i < node.children.len() ==> adds_up(#[trigger] node.children[i])
}

/// No folder holds two things of one name.
pub open spec fn distinct(node: NodeView) -> bool
    decreases node,
{
    &&& forall|i: int, j: int|
        0 <= i < j < node.children.len() ==> (#[trigger] node.children[i]).name != (
        #[trigger] node.children[j]).name
    &&& forall|i: int| 0 <= i < node.children.len() ==> distinct(#[trigger] node.children[i])
}

/// Nothing in it is pending.
pub open spec fn settled(node: NodeView) -> bool
    decreases node,
{
    &&& !node.pending
    &&& forall|i: int| 0 <= i < node.children.len() ==> settled(#[trigger] node.children[i])
}

/// Whether `names` begins with all of `head`.
pub open spec fn begins_with(names: Seq<Seq<char>>, head: Seq<Seq<char>>) -> bool {
    head.len() <= names.len() && names.take(head.len() as int) == head
}

// ---------------------------------------------------------------------- sums

proof fn lemma_sums_remove(nodes: Seq<NodeView>, i: int)
    requires
        0 <= i < nodes.len(),
    ensures
        bytes_of(nodes.remove(i)) + nodes[i].size == bytes_of(nodes),
        files_of(nodes.remove(i)) + nodes[i].files == files_of(nodes),
    decreases nodes.len(),
{
    if i == nodes.len() - 1 {
        assert(nodes.remove(i) =~= nodes.drop_last());
    } else {
        lemma_sums_remove(nodes.drop_last(), i);
        assert(nodes.remove(i).drop_last() =~= nodes.drop_last().remove(i));
        assert(nodes.remove(i).last() == nodes.last());
    }
}

proof fn lemma_sums_update(nodes: Seq<NodeView>, i: int, node: NodeView)
    requires
        0 <= i < nodes.len(),
    ensures
        bytes_of(nodes.update(i, node)) + nodes[i].size == bytes_of(nodes) + node.size,
        files_of(nodes.update(i, node)) + nodes[i].files == files_of(nodes) + node.files,
    decreases nodes.len(),
{
    if i == nodes.len() - 1 {
        assert(nodes.update(i, node).drop_last() =~= nodes.drop_last());
    } else {
        lemma_sums_update(nodes.drop_last(), i, node);
        assert(nodes.update(i, node).drop_last() =~= nodes.drop_last().update(i, node));
        assert(nodes.update(i, node).last() == nodes.last());
    }
}

/// A child is looked up by its name: the first one from `i` on that has it, or none where none
/// has.
pub proof fn lemma_child(children: Seq<NodeView>, name: Seq<char>, i: int)
    requires
        0 <= i,
    ensures
        match tree::child_from(children, name, i) {
            Some(at) => {
                &&& i <= at < children.len()
                &&& children[at].name == name
                &&& forall|j: int| i <= j < at ==> (#[trigger] children[j]).name != name
            },
            None => forall|j: int| i <= j < children.len() ==> (#[trigger] children[j]).name
                != name,
        },
    decreases children.len() - i,
{
    if i < children.len() && children[i].name != name {
        lemma_child(children, name, i + 1);
    }
}

/// Taking something out is arithmetic: what comes out is what was there, what is left weighs
/// exactly that much less, and every folder is still the sum of what it holds.
pub proof fn detaching_keeps_the_sums(node: NodeView, names: Seq<Seq<char>>)
    requires
        adds_up(node),
    ensures
        match tree::detached(node, names) {
            Some((kept, gone)) => {
                &&& tree::at(node, names) == Some(gone)
                &&& adds_up(kept)
                &&& adds_up(gone)
                &&& kept.size + gone.size == node.size
                &&& kept.files + gone.files == node.files
            },
            None => names.len() == 0 || tree::at(node, names) is None,
        },
    decreases names.len(),
{
    if names.len() > 0 {
        lemma_child(node.children, names[0], 0);
        if let Some(i) = tree::child(node, names[0]) {
            let inner = node.children[i];
            assert(adds_up(inner));
            if names.len() == 1 {
                lemma_sums_remove(node.children, i);
                assert(names.skip(1).len() == 0);
                assert(tree::at(inner, names.skip(1)) == Some(inner));
                let kept = (tree::detached(node, names)->0).0;
                assert forall|j: int| 0 <= j < kept.children.len() implies adds_up(
                    #[trigger] kept.children[j],
                ) by {
                    if j < i {
                        assert(kept.children[j] == node.children[j]);
                    } else {
                        assert(kept.children[j] == node.children[j + 1]);
                    }
                }
            } else {
                detaching_keeps_the_sums(inner, names.skip(1));
                if let Some((inner_kept, gone)) = tree::detached(inner, names.skip(1)) {
                    lemma_sums_update(node.children, i, inner_kept);
                    lemma_sums_remove(node.children, i);
                    let kept = (tree::detached(node, names)->0).0;
                    assert forall|j: int| 0 <= j < kept.children.len() implies adds_up(
                        #[trigger] kept.children[j],
                    ) by {
                        if j != i {
                            assert(kept.children[j] == node.children[j]);
                        }
                    }
                }
            }
        }
    }
}

/// Putting something in is arithmetic too, wherever the numbers can hold the sum: the whole
/// weighs exactly that much more, and every folder is still the sum of what it holds.
pub proof fn grafting_keeps_the_sums(node: NodeView, names: Seq<Seq<char>>, come: NodeView)
    requires
        adds_up(node),
        adds_up(come),
        node.size + come.size <= u64::MAX,
        node.files + come.files <= u32::MAX,
    ensures
        match tree::grafted(node, names, come) {
            Some(grown) => {
                &&& adds_up(grown)
                &&& grown.size == node.size + come.size
                &&& grown.files == node.files + come.files
            },
            None => match tree::at(node, names) {
                Some(place) => !place.is_dir,
                None => true,
            },
        },
    decreases names.len(),
{
    if names.len() == 0 {
        if node.is_dir {
            let grown = tree::grafted(node, names, come)->0;
            assert(grown.children.drop_last() =~= node.children);
            assert forall|j: int| 0 <= j < grown.children.len() implies adds_up(
                #[trigger] grown.children[j],
            ) by {
                if j < node.children.len() {
                    assert(grown.children[j] == node.children[j]);
                }
            }
        }
    } else {
        lemma_child(node.children, names[0], 0);
        if let Some(i) = tree::child(node, names[0]) {
            let inner = node.children[i];
            assert(adds_up(inner));
            lemma_sums_remove(node.children, i);
            grafting_keeps_the_sums(inner, names.skip(1), come);
            if let Some(inner_grown) = tree::grafted(inner, names.skip(1), come) {
                lemma_sums_update(node.children, i, inner_grown);
                let grown = tree::grafted(node, names, come)->0;
                assert forall|j: int| 0 <= j < grown.children.len() implies adds_up(
                    #[trigger] grown.children[j],
                ) by {
                    if j != i {
                        assert(grown.children[j] == node.children[j]);
                    }
                }
            }
        }
    }
}

/// A step of the scan that reports a folder already on the map keeps every folder the sum of
/// what it holds, wherever the numbers can hold the sum.
pub proof fn replacing_keeps_the_sums(node: NodeView, names: Seq<Seq<char>>, new: NodeView)
    requires
        adds_up(node),
        adds_up(new),
        match tree::at(node, names) {
            Some(old_node) => {
                &&& node.size - old_node.size + new.size <= u64::MAX
                &&& node.files - old_node.files + new.files <= u32::MAX
            },
            None => true,
        },
    ensures
        adds_up(tree::replaced(node, names, new)),
        match tree::at(node, names) {
            Some(old_node) => {
                let whole = tree::replaced(node, names, new);
                &&& whole.size == node.size - old_node.size + new.size
                &&& whole.files == node.files - old_node.files + new.files
                &&& old_node.size <= node.size
                &&& old_node.files <= node.files
            },
            None => true,
        },
    decreases names.len(),
{
    if names.len() > 0 {
        lemma_child(node.children, names[0], 0);
        if let Some(i) = tree::child(node, names[0]) {
            let inner = node.children[i];
            assert(adds_up(inner));
            lemma_sums_remove(node.children, i);
            lemma_replacing_nothing(inner, names.skip(1), new);
            if tree::at(inner, names.skip(1)) is Some {
                detaching_bounds(inner, names.skip(1));
            }
            replacing_keeps_the_sums(inner, names.skip(1), new);
            let inner_new = tree::replaced(inner, names.skip(1), new);
            lemma_sums_update(node.children, i, inner_new);
            let whole = tree::replaced(node, names, new);
            assert forall|j: int| 0 <= j < whole.children.len() implies adds_up(
                #[trigger] whole.children[j],
            ) by {
                if j != i {
                    assert(whole.children[j] == node.children[j]);
                }
            }
        }
    }
}

/// What is under a node weighs no more than the node.
proof fn detaching_bounds(node: NodeView, names: Seq<Seq<char>>)
    requires
        adds_up(node),
        tree::at(node, names) is Some,
    ensures
        (tree::at(node, names)->0).size <= node.size,
        (tree::at(node, names)->0).files <= node.files,
    decreases names.len(),
{
    if names.len() > 0 {
        lemma_child(node.children, names[0], 0);
        let i = tree::child(node, names[0])->0;
        assert(adds_up(node.children[i]));
        lemma_sums_remove(node.children, i);
        detaching_bounds(node.children[i], names.skip(1));
    }
}

/// A child weighs no more than the folder that it is in.
pub proof fn lemma_child_weighs_less(node: NodeView, i: int)
    requires
        adds_up(node),
        0 <= i < node.children.len(),
    ensures
        node.children[i].size <= node.size,
        node.children[i].files <= node.files,
{
    lemma_sums_remove(node.children, i);
}

/// Names that do not resolve replace nothing, and leave the sizes alone.
proof fn lemma_replacing_nothing(node: NodeView, names: Seq<Seq<char>>, new: NodeView)
    requires
        adds_up(node),
    ensures
        tree::at(node, names) is None ==> {
            &&& tree::replaced(node, names, new).size == node.size
            &&& tree::replaced(node, names, new).files == node.files
        },
    decreases names.len(),
{
    if names.len() > 0 {
        lemma_child(node.children, names[0], 0);
        if let Some(i) = tree::child(node, names[0]) {
            assert(adds_up(node.children[i]));
            lemma_sums_remove(node.children, i);
            lemma_replacing_nothing(node.children[i], names.skip(1), new);
        }
    }
}

// ------------------------------------------------------------------- finding

/// What was put into a folder is found there under its name, if the name was free.
pub proof fn a_graft_is_found(node: NodeView, names: Seq<Seq<char>>, come: NodeView)
    requires
        tree::grafted(node, names, come) is Some,
        tree::at(node, names.push(come.name)) is None,
    ensures
        tree::at(tree::grafted(node, names, come)->0, names.push(come.name)) == Some(come),
    decreases names.len(),
{
    let there = names.push(come.name);
    let grown = tree::grafted(node, names, come)->0;
    if names.len() == 0 {
        lemma_child(node.children, come.name, 0);
        lemma_child(grown.children, come.name, 0);
        let n = node.children.len() as int;
        assert(there[0] == come.name);
        assert(there.skip(1) =~= Seq::<Seq<char>>::empty());
        if let Some(i) = tree::child(node, come.name) {
            assert(tree::at(node.children[i], there.skip(1)) is Some);
        }
        assert(grown.children[n] == come);
        assert(tree::child(grown, come.name) == Some(n)) by {
            if let Some(k) = tree::child(grown, come.name) {
                if k < n {
                    assert(grown.children[k] == node.children[k]);
                }
            }
        }
        assert(tree::at(come, there.skip(1)) == Some(come));
    } else {
        assert(there[0] == names[0]);
        assert(there.skip(1) =~= names.skip(1).push(come.name));
        lemma_child(node.children, names[0], 0);
        let i = tree::child(node, names[0])->0;
        a_graft_is_found(node.children[i], names.skip(1), come);
        lemma_grafted_name(node.children[i], names.skip(1), come);
        lemma_child_after_update(node, names[0], i, tree::grafted(node.children[i], names.skip(1), come)->0, grown);
    }
}

proof fn lemma_grafted_name(node: NodeView, names: Seq<Seq<char>>, come: NodeView)
    requires
        tree::grafted(node, names, come) is Some,
    ensures
        (tree::grafted(node, names, come)->0).name == node.name,
{
}

proof fn lemma_detached_name(node: NodeView, names: Seq<Seq<char>>)
    requires
        tree::detached(node, names) is Some,
    ensures
        (tree::detached(node, names)->0).0.name == node.name,
{
}

/// Replacing a child by one of the same name changes no lookup by name.
pub proof fn lemma_child_after_update(
    node: NodeView,
    name: Seq<char>,
    i: int,
    new: NodeView,
    whole: NodeView,
)
    requires
        0 <= i < node.children.len(),
        new.name == node.children[i].name,
        whole.children == node.children.update(i, new),
    ensures
        tree::child(whole, name) == tree::child(node, name),
{
    lemma_child_from_after_update(node.children, name, i, new, 0);
}

proof fn lemma_child_from_after_update(
    children: Seq<NodeView>,
    name: Seq<char>,
    i: int,
    new: NodeView,
    k: int,
)
    requires
        0 <= k,
        0 <= i < children.len(),
        new.name == children[i].name,
    ensures
        tree::child_from(children.update(i, new), name, k) == tree::child_from(children, name, k),
    decreases children.len() - k,
{
    if k < children.len() {
        lemma_child_from_after_update(children, name, i, new, k + 1);
    }
}

/// Putting something into a folder leaves everything else where it is: a copy's source stays
/// as it was, unless the copy went into the source itself.
pub proof fn a_graft_leaves_the_rest(
    node: NodeView,
    names: Seq<Seq<char>>,
    come: NodeView,
    other: Seq<Seq<char>>,
)
    requires
        tree::grafted(node, names, come) is Some,
        tree::at(node, other) is Some,
        !begins_with(names, other),
    ensures
        tree::at(tree::grafted(node, names, come)->0, other) == tree::at(node, other),
    decreases names.len(),
{
    let grown = tree::grafted(node, names, come)->0;
    assert(other.len() > 0) by {
        if other.len() == 0 {
            assert(names.take(0) =~= other);
        }
    }
    lemma_child(node.children, other[0], 0);
    let j = tree::child(node, other[0])->0;
    if names.len() == 0 {
        lemma_child(grown.children, other[0], 0);
        assert(grown.children[j] == node.children[j]);
        assert(tree::child(grown, other[0]) == Some(j)) by {
            if let Some(k) = tree::child(grown, other[0]) {
                if k < j {
                    assert(grown.children[k] == node.children[k]);
                }
            }
        }
    } else {
        lemma_child(node.children, names[0], 0);
        let i = tree::child(node, names[0])->0;
        let inner = tree::grafted(node.children[i], names.skip(1), come)->0;
        lemma_child_after_update(node, other[0], i, inner, grown);
        if i == j {
            assert(other[0] == names[0]);
            assert(!begins_with(names.skip(1), other.skip(1))) by {
                if begins_with(names.skip(1), other.skip(1)) {
                    let n = other.len() as int;
                    assert(names.take(n) =~= other) by {
                        assert forall|k: int| 0 <= k < n implies names[k] == other[k] by {
                            if k > 0 {
                                assert(names.skip(1).take(n - 1)[k - 1] == other.skip(1)[k - 1]);
                            }
                        }
                    }
                }
            }
            a_graft_leaves_the_rest(node.children[i], names.skip(1), come, other.skip(1));
        } else {
            assert(grown.children[j] == node.children[j]);
        }
    }
}

/// Putting something in adds nothing but it: names that led nowhere still lead nowhere,
/// unless they lead to it or into it.
pub proof fn a_graft_adds_nothing_else(
    node: NodeView,
    names: Seq<Seq<char>>,
    come: NodeView,
    other: Seq<Seq<char>>,
)
    requires
        tree::grafted(node, names, come) is Some,
        tree::at(node, other) is None,
        !begins_with(other, names.push(come.name)),
    ensures
        tree::at(tree::grafted(node, names, come)->0, other) is None,
    decreases names.len(),
{
    let grown = tree::grafted(node, names, come)->0;
    let there = names.push(come.name);
    lemma_child(node.children, other[0], 0);
    lemma_child(grown.children, other[0], 0);
    if names.len() == 0 {
        let n = node.children.len() as int;
        if let Some(k) = tree::child(grown, other[0]) {
            if k == n {
                assert(other.take(1) =~= there);
            } else {
                assert(grown.children[k] == node.children[k]);
                assert(tree::child(node, other[0]) == Some(k)) by {
                    if let Some(j) = tree::child(node, other[0]) {
                        if j < k {
                            assert(grown.children[j] == node.children[j]);
                        }
                    }
                }
            }
        }
    } else {
        lemma_child(node.children, names[0], 0);
        let i = tree::child(node, names[0])->0;
        let inner = tree::grafted(node.children[i], names.skip(1), come)->0;
        lemma_child_after_update(node, other[0], i, inner, grown);
        if let Some(j) = tree::child(node, other[0]) {
            if i == j {
                assert(other[0] == names[0]);
                assert(there.skip(1) =~= names.skip(1).push(come.name));
                lemma_begins_skip(other, there);
                a_graft_adds_nothing_else(node.children[i], names.skip(1), come, other.skip(1));
            } else {
                assert(grown.children[j] == node.children[j]);
            }
        }
    }
}

/// What was taken out is not found any more, in a tree where names are distinct.
pub proof fn a_detached_node_is_gone(node: NodeView, names: Seq<Seq<char>>)
    requires
        distinct(node),
        tree::detached(node, names) is Some,
    ensures
        tree::at((tree::detached(node, names)->0).0, names) is None,
        distinct((tree::detached(node, names)->0).0),
    decreases names.len(),
{
    let kept = (tree::detached(node, names)->0).0;
    lemma_child(node.children, names[0], 0);
    let i = tree::child(node, names[0])->0;
    assert(distinct(node.children[i]));
    if names.len() == 1 {
        lemma_child(kept.children, names[0], 0);
        assert forall|j: int| 0 <= j < kept.children.len() implies {
            &&& (#[trigger] kept.children[j]).name != names[0]
            &&& distinct(kept.children[j])
        } by {
            if j < i {
                assert(kept.children[j] == node.children[j]);
            } else {
                assert(kept.children[j] == node.children[j + 1]);
            }
        }
        assert forall|a: int, b: int| 0 <= a < b < kept.children.len() implies (
        #[trigger] kept.children[a]).name != (#[trigger] kept.children[b]).name by {
            let a0 = if a < i { a } else { a + 1 };
            let b0 = if b < i { b } else { b + 1 };
            assert(kept.children[a] == node.children[a0]);
            assert(kept.children[b] == node.children[b0]);
        }
    } else {
        a_detached_node_is_gone(node.children[i], names.skip(1));
        let inner = (tree::detached(node.children[i], names.skip(1))->0).0;
        lemma_detached_name(node.children[i], names.skip(1));
        lemma_child_after_update(node, names[0], i, inner, kept);
        assert forall|j: int| 0 <= j < kept.children.len() implies distinct(
            #[trigger] kept.children[j],
        ) by {
            if j != i {
                assert(kept.children[j] == node.children[j]);
            }
        }
        assert forall|a: int, b: int| 0 <= a < b < kept.children.len() implies (
        #[trigger] kept.children[a]).name != (#[trigger] kept.children[b]).name by {
            assert(kept.children[a].name == node.children[a].name);
            assert(kept.children[b].name == node.children[b].name);
        }
    }
}

/// What was taken out of a tree where names are distinct is such a tree itself.
pub proof fn a_detached_node_is_distinct(node: NodeView, names: Seq<Seq<char>>)
    requires
        distinct(node),
        tree::detached(node, names) is Some,
    ensures
        distinct((tree::detached(node, names)->0).1),
    decreases names.len(),
{
    lemma_child(node.children, names[0], 0);
    let i = tree::child(node, names[0])->0;
    assert(distinct(node.children[i]));
    if names.len() > 1 {
        a_detached_node_is_distinct(node.children[i], names.skip(1));
    }
}

/// Putting something in keeps names distinct, where they are in it and its own is free.
pub proof fn grafting_keeps_names_distinct(node: NodeView, names: Seq<Seq<char>>, come: NodeView)
    requires
        distinct(node),
        distinct(come),
        tree::grafted(node, names, come) is Some,
        tree::at(node, names.push(come.name)) is None,
    ensures
        distinct(tree::grafted(node, names, come)->0),
    decreases names.len(),
{
    let there = names.push(come.name);
    let grown = tree::grafted(node, names, come)->0;
    if names.len() == 0 {
        lemma_child(node.children, come.name, 0);
        assert(there[0] == come.name);
        assert(there.skip(1) =~= Seq::<Seq<char>>::empty());
        if let Some(i) = tree::child(node, come.name) {
            assert(tree::at(node.children[i], there.skip(1)) is Some);
        }
        let n = node.children.len() as int;
        assert forall|j: int| 0 <= j < grown.children.len() implies distinct(
            #[trigger] grown.children[j],
        ) by {
            if j < n {
                assert(grown.children[j] == node.children[j]);
            }
        }
        assert forall|a: int, b: int| 0 <= a < b < grown.children.len() implies (
        #[trigger] grown.children[a]).name != (#[trigger] grown.children[b]).name by {
            assert(grown.children[a] == node.children[a]);
            if b < n {
                assert(grown.children[b] == node.children[b]);
            }
        }
    } else {
        assert(there[0] == names[0]);
        assert(there.skip(1) =~= names.skip(1).push(come.name));
        lemma_child(node.children, names[0], 0);
        let i = tree::child(node, names[0])->0;
        let inner = tree::grafted(node.children[i], names.skip(1), come)->0;
        assert(distinct(node.children[i]));
        grafting_keeps_names_distinct(node.children[i], names.skip(1), come);
        lemma_grafted_name(node.children[i], names.skip(1), come);
        lemma_distinct_after_update(node, i, inner, grown);
    }
}

/// Whether `name` is free beside what is at these names: no other child of its folder has it.
pub open spec fn free_beside(node: NodeView, names: Seq<Seq<char>>, name: Seq<char>) -> bool
    decreases names.len(),
{
    names.len() > 0 ==> match tree::child(node, names[0]) {
        None => true,
        Some(i) => if names.len() == 1 {
            forall|j: int|
                0 <= j < node.children.len() && j != i ==> (#[trigger] node.children[j]).name
                    != name
        } else {
            free_beside(node.children[i], names.skip(1), name)
        },
    }
}

/// A step of the scan keeps names distinct, where they are in what it reports and its own is
/// free beside what it takes the place of.
pub proof fn replacing_keeps_names_distinct(node: NodeView, names: Seq<Seq<char>>, new: NodeView)
    requires
        distinct(node),
        distinct(new),
        free_beside(node, names, new.name),
    ensures
        distinct(tree::replaced(node, names, new)),
    decreases names.len(),
{
    if names.len() > 0 {
        lemma_child(node.children, names[0], 0);
        if let Some(i) = tree::child(node, names[0]) {
            let inner = tree::replaced(node.children[i], names.skip(1), new);
            assert(distinct(node.children[i]));
            replacing_keeps_names_distinct(node.children[i], names.skip(1), new);
            if names.len() > 1 {
                assert(inner.name == node.children[i].name);
            }
            lemma_distinct_after_update(node, i, inner, tree::replaced(node, names, new));
        }
    }
}

/// Replacing a child by one whose name no other child has keeps names distinct.
proof fn lemma_distinct_after_update(node: NodeView, i: int, new: NodeView, whole: NodeView)
    requires
        distinct(node),
        distinct(new),
        0 <= i < node.children.len(),
        whole.children == node.children.update(i, new),
        new.name == node.children[i].name || forall|j: int|
            0 <= j < node.children.len() && j != i ==> (#[trigger] node.children[j]).name
                != new.name,
    ensures
        distinct(whole),
{
    assert forall|j: int| 0 <= j < whole.children.len() implies distinct(
        #[trigger] whole.children[j],
    ) by {
        if j != i {
            assert(whole.children[j] == node.children[j]);
        }
    }
    assert forall|a: int, b: int| 0 <= a < b < whole.children.len() implies (
    #[trigger] whole.children[a]).name != (#[trigger] whole.children[b]).name by {
        if a != i {
            assert(whole.children[a] == node.children[a]);
        }
        if b != i {
            assert(whole.children[b] == node.children[b]);
        }
        assert(node.children[a].name != node.children[b].name);
    }
}

/// A sealed tree has the names it had.
pub proof fn sealing_keeps_names_distinct(node: NodeView)
    requires
        distinct(node),
    ensures
        distinct(tree::sealed(node)),
    decreases node,
{
    let s = tree::sealed(node);
    assert forall|i: int| 0 <= i < s.children.len() implies distinct(#[trigger] s.children[i]) by {
        assert(distinct(node.children[i]));
        sealing_keeps_names_distinct(node.children[i]);
    }
    assert forall|a: int, b: int| 0 <= a < b < s.children.len() implies (
    #[trigger] s.children[a]).name != (#[trigger] s.children[b]).name by {
        sealing_only_settles(node.children[a]);
        sealing_only_settles(node.children[b]);
        assert(s.children[a].name == node.children[a].name);
        assert(s.children[b].name == node.children[b].name);
    }
}

/// What is found in a tree where names are distinct is such a tree itself.
pub proof fn what_is_found_has_distinct_names(node: NodeView, names: Seq<Seq<char>>)
    requires
        distinct(node),
        tree::at(node, names) is Some,
    ensures
        distinct(tree::at(node, names)->0),
    decreases names.len(),
{
    if names.len() > 0 {
        lemma_child(node.children, names[0], 0);
        let i = tree::child(node, names[0])->0;
        assert(distinct(node.children[i]));
        what_is_found_has_distinct_names(node.children[i], names.skip(1));
    }
}

/// Taking something out leaves everything that is neither above nor below it as it was.
pub proof fn a_detach_leaves_the_rest(
    node: NodeView,
    names: Seq<Seq<char>>,
    other: Seq<Seq<char>>,
)
    requires
        tree::detached(node, names) is Some,
        tree::at(node, other) is Some,
        !begins_with(names, other),
        !begins_with(other, names),
    ensures
        tree::at((tree::detached(node, names)->0).0, other) == tree::at(node, other),
    decreases names.len(),
{
    let kept = (tree::detached(node, names)->0).0;
    assert(other.len() > 0) by {
        if other.len() == 0 {
            assert(names.take(0) =~= other);
        }
    }
    lemma_child(node.children, other[0], 0);
    lemma_child(node.children, names[0], 0);
    let j = tree::child(node, other[0])->0;
    let i = tree::child(node, names[0])->0;
    if i == j {
        assert(other[0] == names[0]);
        if names.len() == 1 {
            assert(other.take(1) =~= names);
        } else {
            let inner = (tree::detached(node.children[i], names.skip(1))->0).0;
            lemma_detached_name(node.children[i], names.skip(1));
            lemma_child_after_update(node, other[0], i, inner, kept);
            lemma_begins_skip(names, other);
            lemma_begins_skip(other, names);
            a_detach_leaves_the_rest(node.children[i], names.skip(1), other.skip(1));
        }
    } else if names.len() == 1 {
        lemma_child(kept.children, other[0], 0);
        let at = if j < i { j } else { j - 1 };
        assert(kept.children[at] == node.children[j]);
        assert(tree::child(kept, other[0]) == Some(at)) by {
            if let Some(k) = tree::child(kept, other[0]) {
                if k < at {
                    let k0 = if k < i { k } else { k + 1 };
                    assert(kept.children[k] == node.children[k0]);
                }
            }
        }
    } else {
        let inner = (tree::detached(node.children[i], names.skip(1))->0).0;
        lemma_detached_name(node.children[i], names.skip(1));
        lemma_child_after_update(node, other[0], i, inner, kept);
        assert(kept.children[j] == node.children[j]);
    }
}

proof fn lemma_begins_skip(names: Seq<Seq<char>>, head: Seq<Seq<char>>)
    requires
        names.len() > 0,
        head.len() > 0,
        names[0] == head[0],
        !begins_with(names, head),
    ensures
        !begins_with(names.skip(1), head.skip(1)),
{
    if begins_with(names.skip(1), head.skip(1)) {
        let n = head.len() as int;
        assert(names.take(n) =~= head) by {
            assert forall|k: int| 0 <= k < n implies names[k] == head[k] by {
                if k > 0 {
                    assert(names.skip(1).take(n - 1)[k - 1] == head.skip(1)[k - 1]);
                }
            }
        }
    }
}

/// A sealed tree has nothing pending, and is otherwise the tree it was.
pub proof fn sealing_only_settles(node: NodeView)
    ensures
        settled(tree::sealed(node)),
        tree::sealed(node).size == node.size,
        tree::sealed(node).files == node.files,
        tree::sealed(node).name == node.name,
        tree::sealed(node).children.len() == node.children.len(),
        adds_up(node) ==> adds_up(tree::sealed(node)),
    decreases node,
{
    let s = tree::sealed(node);
    assert forall|i: int| 0 <= i < node.children.len() implies {
        &&& settled(#[trigger] s.children[i])
        &&& s.children[i].size == node.children[i].size
        &&& s.children[i].files == node.children[i].files
        &&& adds_up(node.children[i]) ==> adds_up(s.children[i])
    } by {
        sealing_only_settles(node.children[i]);
    }
    lemma_same_sums(node.children, s.children);
}

proof fn lemma_same_sums(a: Seq<NodeView>, b: Seq<NodeView>)
    requires
        a.len() == b.len(),
        forall|i: int|
            0 <= i < a.len() ==> (#[trigger] a[i]).size == b[i].size && a[i].files == b[i].files,
    ensures
        bytes_of(a) == bytes_of(b),
        files_of(a) == files_of(b),
    decreases a.len(),
{
    if a.len() > 0 {
        assert(a.last() == a[a.len() - 1]);
        assert forall|i: int| 0 <= i < a.drop_last().len() implies (
        #[trigger] a.drop_last()[i]).size == b.drop_last()[i].size && a.drop_last()[i].files
            == b.drop_last()[i].files by {
            assert(a.drop_last()[i] == a[i]);
        }
        lemma_same_sums(a.drop_last(), b.drop_last());
    }
}

/// The map stays of one size when something moves within it: what a folder loses another
/// gains, and the whole is what it was.
pub proof fn a_move_keeps_the_total(
    node: NodeView,
    from: Seq<Seq<char>>,
    into: Seq<Seq<char>>,
    name: Seq<char>,
)
    requires
        adds_up(node),
        tree::detached(node, from) is Some,
        ({
            let (kept, gone) = tree::detached(node, from)->0;
            tree::grafted(kept, into, NodeView { name, ..gone }) is Some
        }),
    ensures
        ({
            let (kept, gone) = tree::detached(node, from)->0;
            let moved = tree::grafted(kept, into, NodeView { name, ..gone })->0;
            &&& adds_up(moved)
            &&& moved.size == node.size
            &&& moved.files == node.files
        }),
{
    detaching_keeps_the_sums(node, from);
    let (kept, gone) = tree::detached(node, from)->0;
    lemma_renamed_adds_up(gone, name);
    grafting_keeps_the_sums(kept, into, NodeView { name, ..gone });
}

/// A new name changes no sum.
pub proof fn lemma_renamed_adds_up(node: NodeView, name: Seq<char>)
    requires
        adds_up(node),
    ensures
        adds_up(NodeView { name, ..node }),
{
}

} // verus!
