//! What holds of the rebuilt accessibility tree and of its outline,
//! whatever the list of nodes and the options.
use vstd::prelude::*;
use vstd::set_lib::{lemma_int_range, lemma_len_subset, set_int_range};
use crate::ax::{
    ax_line, ax_lines, ax_lines_of, ax_shown, ax_shown_all, lemma_ax_cut, AxModel, AxShown,
};
use crate::ax_tree::{attach, attach_all, node_ids, one_or_none, rebuilt, root_ids, slot_of};
use crate::options::OptionsModel;
use crate::text::{indented_by, lemma_indented};

verus! {

/// The number of nodes that the outline takes of the subtree at `node`: a
/// node below the greatest depth is not taken, nor anything under it; a
/// node passed over is not taken, its children are looked at in its place.
pub open spec fn ax_count(node: AxModel, depth: nat, opts: OptionsModel) -> nat
    decreases node,
{
    if opts.cuts(depth) {
        0
    } else {
        match node.children {
            Some(k) => if node.passed_over(opts) {
                ax_count_all(k, depth, opts)
            } else {
                1 + ax_count_all(k, depth + 1, opts)
            },
            None => if node.passed_over(opts) {
                0
            } else {
                1
            },
        }
    }
}

/// The number of nodes that the outline takes of the subtrees at `nodes`.
pub open spec fn ax_count_all(nodes: Seq<AxModel>, depth: nat, opts: OptionsModel) -> nat
    decreases nodes,
{
    if nodes.len() == 0 {
        0
    } else {
        ax_count_all(nodes.drop_last(), depth, opts) + ax_count(nodes.last(), depth, opts)
    }
}

/// The outline has one line for each node taken, no more and no less.
pub proof fn lemma_ax_line_count(node: AxModel, depth: nat, opts: OptionsModel)
    ensures
        ax_lines(node, depth, opts).len() == ax_count(node, depth, opts),
        ax_shown(node, depth, opts).len() == ax_count(node, depth, opts),
    decreases node, 1nat,
{
    if !opts.cuts(depth) {
        match node.children {
            Some(k) => {
                if node.passed_over(opts) {
                    lemma_ax_line_count_all(k, depth, opts);
                } else {
                    lemma_ax_line_count_all(k, depth + 1, opts);
                }
            },
            None => {},
        }
    }
}

/// The outline of a run of subtrees has one line for each node taken.
pub proof fn lemma_ax_line_count_all(nodes: Seq<AxModel>, depth: nat, opts: OptionsModel)
    ensures
        ax_shown_all(nodes, depth, opts).len() == ax_count_all(nodes, depth, opts),
    decreases nodes, 0nat,
{
    if nodes.len() > 0 {
        lemma_ax_line_count_all(nodes.drop_last(), depth, opts);
        lemma_ax_line_count(nodes.last(), depth, opts);
    }
}

/// Each line is indented by two blanks for each level of the depth at
/// which its node is shown.
pub proof fn lemma_ax_lines_indented(shown: Seq<AxShown>)
    ensures
        forall|i: int|
            0 <= i < shown.len() ==> indented_by(#[trigger] ax_lines_of(shown)[i], shown[i].depth),
{
    assert forall|i: int| 0 <= i < shown.len() implies indented_by(
        #[trigger] ax_lines_of(shown)[i],
        shown[i].depth,
    ) by {
        let node = shown[i].node;
        let rest = node.role_text() + (if node.name_text().len() == 0 {
            Seq::empty()
        } else {
            " \""@ + node.name_text() + "\""@
        });
        lemma_indented(shown[i].depth, rest);
        assert(ax_line(shown[i].depth, node) =~= crate::text::indent(shown[i].depth) + "- "@
            + rest);
    }
}

/// Each line of the outline of a subtree is indented by two blanks for each
/// level of the depth at which its node is shown.
pub proof fn lemma_ax_outline_indented(node: AxModel, depth: nat, opts: OptionsModel)
    ensures
        forall|i: int|
            0 <= i < ax_lines(node, depth, opts).len() ==> indented_by(
                #[trigger] ax_lines(node, depth, opts)[i],
                ax_shown(node, depth, opts)[i].depth,
            ),
{
    lemma_ax_lines_indented(ax_shown(node, depth, opts));
}

/// Every node shown lies at `depth` or deeper, and none below the greatest
/// depth.
pub open spec fn ax_depths_within(shown: Seq<AxShown>, depth: nat, opts: OptionsModel) -> bool {
    forall|i: int|
        0 <= i < shown.len() ==> depth <= (#[trigger] shown[i]).depth && !opts.cuts(shown[i].depth)
}

/// The nodes shown of the subtree at `node`, drawn from `depth`, lie at
/// `depth` or deeper and not below the greatest depth: with the greatest
/// depth at 0 every line stands at depth 0, however many there are.
pub proof fn lemma_ax_depths(node: AxModel, depth: nat, opts: OptionsModel)
    ensures
        ax_depths_within(ax_shown(node, depth, opts), depth, opts),
    decreases node, 1nat,
{
    if !opts.cuts(depth) {
        match node.children {
            Some(k) => {
                if node.passed_over(opts) {
                    lemma_ax_depths_all(k, depth, opts);
                } else {
                    lemma_ax_depths_all(k, depth + 1, opts);
                    let rest = ax_shown_all(k, depth + 1, opts);
                    let all = ax_shown(node, depth, opts);
                    assert forall|i: int| 0 <= i < all.len() implies depth <= (
                    #[trigger] all[i]).depth && !opts.cuts(all[i].depth) by {
                        if i > 0 {
                            assert(all[i] == rest[i - 1]);
                        }
                    }
                }
            },
            None => {},
        }
    }
}

/// The nodes shown of a run of subtrees lie at `depth` or deeper and not
/// below the greatest depth.
pub proof fn lemma_ax_depths_all(nodes: Seq<AxModel>, depth: nat, opts: OptionsModel)
    ensures
        ax_depths_within(ax_shown_all(nodes, depth, opts), depth, opts),
    decreases nodes, 0nat,
{
    if nodes.len() > 0 {
        lemma_ax_depths_all(nodes.drop_last(), depth, opts);
        lemma_ax_depths(nodes.last(), depth, opts);
        let a = ax_shown_all(nodes.drop_last(), depth, opts);
        let b = ax_shown(nodes.last(), depth, opts);
        assert forall|i: int| 0 <= i < (a + b).len() implies depth <= (#[trigger] (a + b)[i]).depth
            && !opts.cuts((a + b)[i].depth) by {
            if i < a.len() {
                assert((a + b)[i] == a[i]);
            } else {
                assert((a + b)[i] == b[i - a.len()]);
            }
        }
    }
}

/// With the greatest depth at 0 every line stands at depth 0; a root that is
/// passed over may give several.
pub proof fn lemma_ax_depth_zero(root: AxModel, opts: OptionsModel)
    requires
        opts.max_depth == Some(0nat),
    ensures
        forall|i: int|
            0 <= i < ax_shown(root, 0, opts).len() ==> (#[trigger] ax_shown(root, 0, opts)[i]).depth
                == 0,
        !root.passed_over(opts) ==> ax_lines(root, 0, opts).len() == 1,
{
    lemma_ax_depths(root, 0, opts);
    if !root.passed_over(opts) {
        match root.children {
            Some(k) => {
                lemma_ax_cut(k, 1, opts);
            },
            None => {},
        }
    }
}

/// The places of a list of `n` nodes.
pub open spec fn places(n: nat) -> Set<int> {
    set_int_range(0, n as int)
}

/// `gone` holds places of the list only.
pub open spec fn within(nodes: Seq<AxModel>, gone: Set<int>) -> bool {
    gone.finite() && gone.subset_of(places(nodes.len()))
}

/// The place that an id stands for is a place of the list, and the node
/// there bears the id.
pub proof fn lemma_slot_in_range(ids: Seq<Seq<char>>, id: Seq<char>)
    ensures
        match slot_of(ids, id) {
            Some(i) => 0 <= i < ids.len() && ids[i] == id,
            None => true,
        },
    decreases ids.len(),
{
    if ids.len() > 0 && ids.last() != id {
        lemma_slot_in_range(ids.drop_last(), id);
    }
}

/// Taking a subtree out takes places of the list, and gives none back.
pub proof fn lemma_attach_grows(nodes: Seq<AxModel>, gone: Set<int>, id: Seq<char>, levels: nat)
    requires
        within(nodes, gone),
    ensures
        within(nodes, attach(nodes, gone, id, levels).1),
        gone.subset_of(attach(nodes, gone, id, levels).1),
    decreases levels, 0nat,
{
    lemma_slot_in_range(node_ids(nodes), id);
    match slot_of(node_ids(nodes), id) {
        Some(i) => {
            if !(gone.contains(i) || levels == 0) {
                lemma_attach_all_grows(
                    nodes,
                    gone.insert(i),
                    nodes[i].child_ids,
                    (levels - 1) as nat,
                );
            }
        },
        None => {},
    }
}

/// Taking a run of subtrees out takes places of the list, and gives none
/// back.
pub proof fn lemma_attach_all_grows(
    nodes: Seq<AxModel>,
    gone: Set<int>,
    ids: Seq<Seq<char>>,
    levels: nat,
)
    requires
        within(nodes, gone),
    ensures
        within(nodes, attach_all(nodes, gone, ids, levels).1),
        gone.subset_of(attach_all(nodes, gone, ids, levels).1),
    decreases levels, ids.len(),
{
    if ids.len() > 0 {
        lemma_attach_all_grows(nodes, gone, ids.drop_last(), levels);
        let before = attach_all(nodes, gone, ids.drop_last(), levels);
        lemma_attach_grows(nodes, before.1, ids.last(), levels);
    }
}

/// With as many levels as nodes are left, more levels change nothing: the
/// bound on the length of a chain of parents is never met.
pub proof fn lemma_levels_suffice(
    nodes: Seq<AxModel>,
    gone: Set<int>,
    id: Seq<char>,
    levels: nat,
    more: nat,
)
    requires
        within(nodes, gone),
        nodes.len() - gone.len() <= levels,
    ensures
        attach(nodes, gone, id, levels) == attach(nodes, gone, id, levels + more),
    decreases levels, 0nat,
{
    lemma_slot_in_range(node_ids(nodes), id);
    match slot_of(node_ids(nodes), id) {
        Some(i) => {
            if !gone.contains(i) {
                let taken = gone.insert(i);
                lemma_int_range(0, nodes.len() as int);
                lemma_len_subset(taken, places(nodes.len()));
                assert(taken.len() == gone.len() + 1);
                assert(levels >= 1);
                lemma_levels_suffice_all(
                    nodes,
                    taken,
                    nodes[i].child_ids,
                    (levels - 1) as nat,
                    more,
                );
                assert((levels + more - 1) as nat == (levels - 1) as nat + more);
            }
        },
        None => {},
    }
}

/// With as many levels as nodes are left, more levels change nothing for a
/// run of subtrees.
pub proof fn lemma_levels_suffice_all(
    nodes: Seq<AxModel>,
    gone: Set<int>,
    ids: Seq<Seq<char>>,
    levels: nat,
    more: nat,
)
    requires
        within(nodes, gone),
        nodes.len() - gone.len() <= levels,
    ensures
        attach_all(nodes, gone, ids, levels) == attach_all(nodes, gone, ids, levels + more),
    decreases levels, ids.len(),
{
    if ids.len() > 0 {
        lemma_levels_suffice_all(nodes, gone, ids.drop_last(), levels, more);
        let before = attach_all(nodes, gone, ids.drop_last(), levels);
        lemma_attach_all_grows(nodes, gone, ids.drop_last(), levels);
        lemma_int_range(0, nodes.len() as int);
        lemma_len_subset(gone, before.1);
        lemma_levels_suffice(nodes, before.1, ids.last(), levels, more);
    }
}

/// The rebuilt tree does not depend on the bound on the length of a chain
/// of parents: any bound from the number of nodes on gives the same tree.
pub proof fn lemma_rebuilt_any_levels(nodes: Seq<AxModel>, more: nat)
    ensures
        rebuilt(nodes) == attach_all(
            nodes,
            Set::empty(),
            root_ids(nodes),
            nodes.len() + more,
        ).0,
{
    lemma_levels_suffice_all(nodes, Set::empty(), root_ids(nodes), nodes.len(), more);
}

/// The number of nodes of the subtree at `node`.
pub open spec fn ax_size(node: AxModel) -> nat
    decreases node,
{
    match node.children {
        Some(k) => 1 + ax_size_all(k),
        None => 1,
    }
}

/// The number of nodes of the subtrees at `nodes`.
pub open spec fn ax_size_all(nodes: Seq<AxModel>) -> nat
    decreases nodes,
{
    if nodes.len() == 0 {
        0
    } else {
        ax_size_all(nodes.drop_last()) + ax_size(nodes.last())
    }
}

/// A subtree that is taken out holds as many nodes as places are taken
/// for it: each node of the list is placed once at most.
pub proof fn lemma_attach_takes_places(
    nodes: Seq<AxModel>,
    gone: Set<int>,
    id: Seq<char>,
    levels: nat,
)
    requires
        within(nodes, gone),
    ensures
        attach(nodes, gone, id, levels).1.len() == gone.len() + ax_size_all(
            one_or_none(attach(nodes, gone, id, levels).0),
        ),
    decreases levels, 0nat,
{
    lemma_slot_in_range(node_ids(nodes), id);
    let out = attach(nodes, gone, id, levels);
    match slot_of(node_ids(nodes), id) {
        Some(i) => {
            if !(gone.contains(i) || levels == 0) {
                lemma_attach_all_takes_places(
                    nodes,
                    gone.insert(i),
                    nodes[i].child_ids,
                    (levels - 1) as nat,
                );
                let taken = gone.insert(i);
                let below = attach_all(nodes, taken, nodes[i].child_ids, (levels - 1) as nat);
                assert(taken.len() == gone.len() + 1);
                assert(out.1 == below.1);
                assert(out.0->0.children == Some(below.0));
                assert(ax_size(out.0->0) == 1 + ax_size_all(below.0));
                let one = one_or_none(out.0);
                assert(one.drop_last() =~= Seq::<AxModel>::empty());
                assert(one.last() == out.0->0);
                assert(ax_size_all(one.drop_last()) == 0);
                assert(ax_size_all(one) == ax_size(out.0->0));
            } else {
                assert(ax_size_all(one_or_none(out.0)) == 0);
            }
        },
        None => {
            assert(ax_size_all(one_or_none(out.0)) == 0);
        },
    }
}

/// The subtrees that are taken out hold as many nodes as places are taken
/// for them.
pub proof fn lemma_attach_all_takes_places(
    nodes: Seq<AxModel>,
    gone: Set<int>,
    ids: Seq<Seq<char>>,
    levels: nat,
)
    requires
        within(nodes, gone),
    ensures
        attach_all(nodes, gone, ids, levels).1.len() == gone.len() + ax_size_all(
            attach_all(nodes, gone, ids, levels).0,
        ),
    decreases levels, ids.len(),
{
    if ids.len() > 0 {
        lemma_attach_all_takes_places(nodes, gone, ids.drop_last(), levels);
        let before = attach_all(nodes, gone, ids.drop_last(), levels);
        lemma_attach_all_grows(nodes, gone, ids.drop_last(), levels);
        lemma_attach_takes_places(nodes, before.1, ids.last(), levels);
        let last = attach(nodes, before.1, ids.last(), levels);
        match last.0 {
            Some(n) => {
                let all = before.0 + seq![n];
                assert(all.drop_last() =~= before.0);
                assert(all.last() == n);
                let one = seq![n];
                assert(one.drop_last() =~= Seq::<AxModel>::empty());
                assert(one.last() == n);
                assert(ax_size_all(one.drop_last()) == 0);
            },
            None => {
                assert(before.0 + Seq::<AxModel>::empty() =~= before.0);
                assert(ax_size_all(Seq::<AxModel>::empty()) == 0);
            },
        }
    } else {
        assert(ax_size_all(attach_all(nodes, gone, ids, levels).0) == 0);
    }
}

/// The rebuilt tree holds no more nodes than the list: no node of the list
/// stands in it twice.
pub proof fn lemma_rebuilt_size(nodes: Seq<AxModel>)
    ensures
        ax_size_all(rebuilt(nodes)) <= nodes.len(),
{
    let none = Set::<int>::empty();
    lemma_attach_all_takes_places(nodes, none, root_ids(nodes), nodes.len());
    lemma_attach_all_grows(nodes, none, root_ids(nodes), nodes.len());
    lemma_int_range(0, nodes.len() as int);
    lemma_len_subset(
        attach_all(nodes, none, root_ids(nodes), nodes.len()).1,
        places(nodes.len()),
    );
}

} // verus!
