//! Rebuilding the accessibility tree from the flat list of nodes that are
//! linked by the ids of their children.
use vstd::prelude::*;
use crate::ax::{ax_models, id_texts, AXNode, AxModel};

verus! {

/// The ids of the nodes, in their order.
pub open spec fn node_ids(nodes: Seq<AxModel>) -> Seq<Seq<char>> {
    Seq::new(nodes.len(), |i: int| nodes[i].node_id)
}

/// The place of the node that the list holds under `id`: where several
/// nodes bear one id, the last of them stands for it.
pub open spec fn slot_of(ids: Seq<Seq<char>>, id: Seq<char>) -> Option<int>
    decreases ids.len(),
{
    if ids.len() == 0 {
        None
    } else if ids.last() == id {
        Some(ids.len() - 1)
    } else {
        slot_of(ids.drop_last(), id)
    }
}

/// Some node names `id` among its children.
pub open spec fn referenced(nodes: Seq<AxModel>, id: Seq<char>) -> bool {
    exists|j: int, k: int|
        0 <= j < nodes.len() && 0 <= k < nodes[j].child_ids.len() && #[trigger] nodes[j].child_ids[k]
            == id
}

/// The ids of the nodes among the first `upto` that no node names among its
/// children, in their order.
pub open spec fn unreferenced_ids(nodes: Seq<AxModel>, upto: int) -> Seq<Seq<char>>
    decreases upto,
{
    if upto <= 0 {
        Seq::empty()
    } else {
        let before = unreferenced_ids(nodes, upto - 1);
        if referenced(nodes, nodes[upto - 1].node_id) {
            before
        } else {
            before.push(nodes[upto - 1].node_id)
        }
    }
}

/// The ids of the roots: the nodes that no node names among its children;
/// where every node is named, the first node alone.
pub open spec fn root_ids(nodes: Seq<AxModel>) -> Seq<Seq<char>> {
    let free = unreferenced_ids(nodes, nodes.len() as int);
    if free.len() == 0 && nodes.len() > 0 {
        seq![nodes[0].node_id]
    } else {
        free
    }
}

/// The model of an optional node as a list of none or one.
pub open spec fn one_or_none(node: Option<AxModel>) -> Seq<AxModel> {
    match node {
        Some(n) => seq![n],
        None => Seq::empty(),
    }
}

/// Takes the node under `id` out of the list and rebuilds the subtree
/// below it. `gone` holds the places of the nodes taken so far; the result
/// is the subtree, if the node was still there, and the places taken
/// after it.
///
/// `levels` bounds the length of a chain of parents. A chain never holds
/// a node twice, so the number of nodes is bound enough: see
/// `lemma_levels_suffice`.
pub open spec fn attach(nodes: Seq<AxModel>, gone: Set<int>, id: Seq<char>, levels: nat) -> (
    Option<AxModel>,
    Set<int>,
)
    decreases levels, 0nat,
{
    match slot_of(node_ids(nodes), id) {
        Some(i) => if gone.contains(i) || levels == 0 {
            (None, gone)
        } else {
            let below = attach_all(nodes, gone.insert(i), nodes[i].child_ids, (levels - 1) as nat);
            (
                Some(
                    AxModel {
                        node_id: nodes[i].node_id,
                        role: nodes[i].role,
                        name: nodes[i].name,
                        children: Some(below.0),
                        child_ids: nodes[i].child_ids,
                    },
                ),
                below.1,
            )
        },
        None => (None, gone),
    }
}

/// Takes the nodes under `ids` out of the list, one after the other, and
/// rebuilds the subtree below each; an id whose node is gone, or that no
/// node bears, is passed by.
pub open spec fn attach_all(
    nodes: Seq<AxModel>,
    gone: Set<int>,
    ids: Seq<Seq<char>>,
    levels: nat,
) -> (Seq<AxModel>, Set<int>)
    decreases levels, ids.len(),
{
    if ids.len() == 0 {
        (Seq::empty(), gone)
    } else {
        let before = attach_all(nodes, gone, ids.drop_last(), levels);
        let last = attach(nodes, before.1, ids.last(), levels);
        (before.0 + one_or_none(last.0), last.1)
    }
}

/// The tree rebuilt from the flat list: the subtrees below the roots, in
/// the order of the roots.
pub open spec fn rebuilt(nodes: Seq<AxModel>) -> Seq<AxModel> {
    attach_all(nodes, Set::empty(), root_ids(nodes), nodes.len()).0
}

/// What the working list holds while the tree is rebuilt: at each place
/// the node of the flat list, or nothing once the node is taken.
pub open spec fn pool_holds(
    slots: Seq<Option<AXNode>>,
    ids: Seq<String>,
    nodes: Seq<AxModel>,
    gone: Set<int>,
) -> bool {
    &&& slots.len() == nodes.len()
    &&& id_texts(ids) == node_ids(nodes)
    &&& forall|i: int|
        0 <= i < slots.len() ==> ((#[trigger] slots[i]) is None <==> gone.contains(i))
    &&& forall|i: int| 0 <= i < slots.len() && (#[trigger] slots[i]) is Some ==> slots[i]->0@ == nodes[i]
}

/// The model of an optional node.
pub open spec fn ax_model_of(node: Option<AXNode>) -> Option<AxModel> {
    match node {
        Some(n) => Some(n@),
        None => None,
    }
}

/// The place of the last string equal to `id`.
fn find_slot(ids: &Vec<String>, id: &String) -> (r: Option<usize>)
    ensures
        match r {
            Some(i) => slot_of(id_texts(ids@), id@) == Some(i as int) && i < ids.len(),
            None => slot_of(id_texts(ids@), id@) is None,
        },
{
    let ghost all = id_texts(ids@);
    let mut k: usize = ids.len();
    assert(all.take(k as int) =~= all);
    while k > 0
        invariant
            k <= ids.len(),
            all == id_texts(ids@),
            slot_of(all, id@) == slot_of(all.take(k as int), id@),
        decreases k,
    {
        proof {
            let upto = all.take(k as int);
            assert(upto.drop_last() =~= all.take(k - 1));
            assert(upto.last() == ids@[k - 1]@);
        }
        if ids[k - 1] == *id {
            return Some(k - 1);
        }
        k -= 1;
    }
    None
}

/// Takes the node under `id` out of the working list and rebuilds the
/// subtree below it.
fn attach_node(
    slots: &mut Vec<Option<AXNode>>,
    ids: &Vec<String>,
    id: &String,
    levels: usize,
    Ghost(nodes): Ghost<Seq<AxModel>>,
    Ghost(gone): Ghost<Set<int>>,
) -> (r: Option<AXNode>)
    requires
        pool_holds(old(slots)@, ids@, nodes, gone),
    ensures
        pool_holds(final(slots)@, ids@, nodes, attach(nodes, gone, id@, levels as nat).1),
        ax_model_of(r) == attach(nodes, gone, id@, levels as nat).0,
    decreases levels, 0nat,
{
    let found = find_slot(ids, id);
    match found {
        None => None,
        Some(i) => {
            if levels == 0 {
                return None;
            }
            let taken = slots[i].take();
            match taken {
                None => None,
                Some(node) => {
                    let ghost gone1 = gone.insert(i as int);
                    assert(pool_holds(slots@, ids@, nodes, gone1));
                    let kids = attach_children(
                        slots,
                        ids,
                        &node.child_ids,
                        levels - 1,
                        Ghost(nodes),
                        Ghost(gone1),
                    );
                    let out = AXNode {
                        node_id: node.node_id,
                        role: node.role,
                        name: node.name,
                        children: Some(kids),
                        child_ids: node.child_ids,
                    };
                    proof {
                        out.lemma_children();
                        assert(out@ =~= attach(nodes, gone, id@, levels as nat).0->0);
                    }
                    Some(out)
                },
            }
        },
    }
}

/// Takes the nodes under `wanted` out of the working list, one after the
/// other, and rebuilds the subtree below each.
fn attach_children(
    slots: &mut Vec<Option<AXNode>>,
    ids: &Vec<String>,
    wanted: &Vec<String>,
    levels: usize,
    Ghost(nodes): Ghost<Seq<AxModel>>,
    Ghost(gone): Ghost<Set<int>>,
) -> (kids: Vec<AXNode>)
    requires
        pool_holds(old(slots)@, ids@, nodes, gone),
    ensures
        pool_holds(
            final(slots)@,
            ids@,
            nodes,
            attach_all(nodes, gone, id_texts(wanted@), levels as nat).1,
        ),
        ax_models(kids@) == attach_all(nodes, gone, id_texts(wanted@), levels as nat).0,
    decreases levels, wanted.len() + 1,
{
    let ghost all = id_texts(wanted@);
    let mut kids: Vec<AXNode> = Vec::new();
    let mut k: usize = 0;
    while k < wanted.len()
        invariant
            k <= wanted.len(),
            all == id_texts(wanted@),
            pool_holds(slots@, ids@, nodes, attach_all(nodes, gone, all.take(k as int), levels as nat).1),
            ax_models(kids@) == attach_all(nodes, gone, all.take(k as int), levels as nat).0,
        decreases wanted.len() - k,
    {
        let ghost before = attach_all(nodes, gone, all.take(k as int), levels as nat);
        let ghost had = ax_models(kids@);
        proof {
            let upto = all.take(k + 1);
            assert(upto.drop_last() =~= all.take(k as int));
            assert(upto.last() == wanted@[k as int]@);
        }
        match attach_node(slots, ids, &wanted[k], levels, Ghost(nodes), Ghost(before.1)) {
            Some(n) => {
                kids.push(n);
                assert(ax_models(kids@) =~= had + seq![n@]);
            },
            None => {
                assert(ax_models(kids@) =~= had + Seq::<AxModel>::empty());
            },
        }
        k += 1;
    }
    assert(all.take(wanted.len() as int) =~= all);
    kids
}

/// Whether some node names `id` among its children.
fn is_referenced(nodes: &Vec<AXNode>, id: &String) -> (r: bool)
    ensures
        r == referenced(ax_models(nodes@), id@),
{
    let ghost all = ax_models(nodes@);
    let mut j: usize = 0;
    while j < nodes.len()
        invariant
            j <= nodes.len(),
            all == ax_models(nodes@),
            forall|a: int, b: int|
                0 <= a < j && 0 <= b < all[a].child_ids.len() ==> #[trigger] all[a].child_ids[b]
                    != id@,
        decreases nodes.len() - j,
    {
        let node = &nodes[j];
        assert(all[j as int].child_ids == id_texts(node.child_ids@));
        let mut k: usize = 0;
        while k < node.child_ids.len()
            invariant
                k <= node.child_ids.len(),
                j < nodes.len(),
                all == ax_models(nodes@),
                node == nodes@[j as int],
                all[j as int].child_ids == id_texts(node.child_ids@),
                forall|b: int| 0 <= b < k ==> #[trigger] all[j as int].child_ids[b] != id@,
            decreases node.child_ids.len() - k,
        {
            if node.child_ids[k] == *id {
                assert(all[j as int].child_ids[k as int] == id@);
                return true;
            }
            k += 1;
        }
        j += 1;
    }
    false
}

/// Copies of the ids of the roots, in their order.
fn collect_root_ids(nodes: &Vec<AXNode>) -> (roots: Vec<String>)
    ensures
        id_texts(roots@) == root_ids(ax_models(nodes@)),
{
    let ghost all = ax_models(nodes@);
    let mut roots: Vec<String> = Vec::new();
    let mut i: usize = 0;
    while i < nodes.len()
        invariant
            i <= nodes.len(),
            all == ax_models(nodes@),
            id_texts(roots@) == unreferenced_ids(all, i as int),
        decreases nodes.len() - i,
    {
        let ghost had = id_texts(roots@);
        if !is_referenced(nodes, &nodes[i].node_id) {
            roots.push(nodes[i].node_id.clone());
            assert(id_texts(roots@) =~= had.push(all[i as int].node_id));
        }
        i += 1;
    }
    if roots.len() == 0 && nodes.len() > 0 {
        roots.push(nodes[0].node_id.clone());
        assert(id_texts(roots@) =~= seq![all[0].node_id]);
    }
    roots
}

/// Rebuilds the tree from the flat list of nodes. The roots are the nodes
/// that no node names among its children, in their order, or the first node
/// where there is none such. Below each node stand, in the order of its
/// `child_ids`, the nodes that these name; a node is placed once, where the
/// walk from the first root down meets it first, and an id that names no
/// node, or a node already placed, is passed by.
pub fn build_ax_tree(nodes: Vec<AXNode>) -> (roots: Vec<AXNode>)
    ensures
        ax_models(roots@) == rebuilt(ax_models(nodes@)),
{
    let ghost all = ax_models(nodes@);
    let wanted = collect_root_ids(&nodes);
    let count = nodes.len();
    let mut ids: Vec<String> = Vec::new();
    let mut slots: Vec<Option<AXNode>> = Vec::new();
    for node in it: nodes.into_iter()
        invariant
            it.seq() == nodes@,
            all == ax_models(nodes@),
            ids.len() == it.index(),
            slots.len() == it.index(),
            forall|i: int| 0 <= i < ids.len() ==> (#[trigger] ids@[i])@ == all[i].node_id,
            forall|i: int| 0 <= i < slots.len() ==> #[trigger] slots@[i] == Some(nodes@[i]),
    {
        ids.push(node.node_id.clone());
        slots.push(Some(node));
    }
    assert(id_texts(ids@) =~= node_ids(all));
    assert(pool_holds(slots@, ids@, all, Set::<int>::empty()));
    attach_children(&mut slots, &ids, &wanted, count, Ghost(all), Ghost(Set::<int>::empty()))
}

} // verus!
