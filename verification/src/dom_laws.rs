//! What holds of flattening, of the collapse and of the two outlines of the
//! document, whatever the tree.
use vstd::prelude::*;
use crate::dom::{
    collapsed, collapsed_all, dom_body, dom_lines, dom_shown, dom_shown_all, flattened,
    fragment_of, inline_text, is_blank, lemma_dom_cut, mini_lines, mini_shown, mini_shown_all,
    DomModel,
};
use crate::options::OptionsModel;
use crate::text::{indented_by, lemma_indented};

verus! {

/// No fragment stands among the nodes themselves.
pub open spec fn fragment_free(nodes: Seq<DomModel>) -> bool {
    forall|i: int| 0 <= i < nodes.len() ==> !(#[trigger] nodes[i]).is_fragment()
}

/// Nothing is left for the collapse to do in the subtree at `node`: a text
/// node is not blank; a fragment has children, and no attributes; an
/// element is no bare wrapper and has no fragment among its children; and
/// the same holds of the children of fragments and elements.
pub open spec fn settled(node: DomModel) -> bool
    decreases node,
{
    if node.is_text() {
        !is_blank(node.text->0)
    } else if node.is_fragment() {
        &&& node.attrs.len() == 0
        &&& node.children.len() > 0
        &&& forall|i: int| 0 <= i < node.children.len() ==> settled(#[trigger] node.children[i])
    } else {
        &&& !node.is_bare_wrapper()
        &&& fragment_free(node.children)
        &&& forall|i: int| 0 <= i < node.children.len() ==> settled(#[trigger] node.children[i])
    }
}

/// Each of the nodes is settled.
pub open spec fn all_settled(nodes: Seq<DomModel>) -> bool {
    forall|i: int| 0 <= i < nodes.len() ==> settled(#[trigger] nodes[i])
}

/// What flattening hands back holds no fragment.
pub proof fn lemma_flattened_is_fragment_free(nodes: Seq<DomModel>)
    ensures
        fragment_free(flattened(nodes)),
    decreases nodes,
{
    if nodes.len() > 0 {
        lemma_flattened_is_fragment_free(nodes.drop_last());
        if nodes.last().is_fragment() {
            lemma_flattened_is_fragment_free(nodes.last().children);
        }
    }
}

/// Flattening leaves a list without fragments as it is.
pub proof fn lemma_flattened_of_fragment_free(nodes: Seq<DomModel>)
    requires
        fragment_free(nodes),
    ensures
        flattened(nodes) == nodes,
    decreases nodes.len(),
{
    if nodes.len() > 0 {
        assert(!nodes[nodes.len() - 1].is_fragment());
        assert forall|i: int| 0 <= i < nodes.drop_last().len() implies !(
        #[trigger] nodes.drop_last()[i]).is_fragment() by {
            assert(nodes.drop_last()[i] == nodes[i]);
        }
        lemma_flattened_of_fragment_free(nodes.drop_last());
        assert(nodes.drop_last() + seq![nodes.last()] =~= nodes);
    } else {
        assert(flattened(nodes) =~= nodes);
    }
}

/// Flattening twice is flattening once.
pub proof fn lemma_flatten_idempotent(nodes: Seq<DomModel>)
    ensures
        flattened(flattened(nodes)) == flattened(nodes),
{
    lemma_flattened_is_fragment_free(nodes);
    lemma_flattened_of_fragment_free(flattened(nodes));
}

/// Flattening settled nodes hands back settled nodes.
pub proof fn lemma_flattened_settled(nodes: Seq<DomModel>)
    requires
        all_settled(nodes),
    ensures
        all_settled(flattened(nodes)),
    decreases nodes,
{
    if nodes.len() > 0 {
        let last = nodes.last();
        assert(settled(nodes[nodes.len() - 1]));
        assert forall|i: int| 0 <= i < nodes.drop_last().len() implies settled(
            #[trigger] nodes.drop_last()[i],
        ) by {
            assert(nodes.drop_last()[i] == nodes[i]);
        }
        lemma_flattened_settled(nodes.drop_last());
        if last.is_fragment() {
            assert(all_settled(last.children));
            lemma_flattened_settled(last.children);
        }
    }
}

/// What the collapse leaves of a subtree is settled.
pub proof fn lemma_collapsed_is_settled(node: DomModel)
    ensures
        collapsed(node) is Some ==> settled(collapsed(node)->0),
    decreases node, 1nat,
{
    if !node.is_text() {
        lemma_collapsed_all_settled(node.children);
        let kept = collapsed_all(node.children);
        if node.is_fragment() || node.is_bare_wrapper() {
            if kept.len() > 0 {
                let out = fragment_of(kept);
                assert(out.is_fragment());
                assert(all_settled(out.children));
            }
        } else {
            lemma_flattened_settled(kept);
            lemma_flattened_is_fragment_free(kept);
            let out = collapsed(node)->0;
            assert(out.children == flattened(kept));
            assert(out.tag == node.tag && out.text == node.text && out.attrs == node.attrs);
            assert(!out.is_text());
            assert(!out.is_fragment());
            assert(out.is_bare_wrapper() == node.is_bare_wrapper());
            assert(all_settled(out.children));
        }
    }
}

/// What the collapse leaves of a run of subtrees is settled.
pub proof fn lemma_collapsed_all_settled(nodes: Seq<DomModel>)
    ensures
        all_settled(collapsed_all(nodes)),
    decreases nodes, 0nat,
{
    if nodes.len() > 0 {
        lemma_collapsed_all_settled(nodes.drop_last());
        lemma_collapsed_is_settled(nodes.last());
    }
}

/// The collapse leaves a settled subtree as it is.
pub proof fn lemma_settled_is_kept(node: DomModel)
    requires
        settled(node),
    ensures
        collapsed(node) == Some(node),
    decreases node, 1nat,
{
    if !node.is_text() {
        assert(all_settled(node.children));
        lemma_settled_all_kept(node.children);
        if node.is_fragment() {
            assert(node.attrs =~= Seq::empty());
            assert(fragment_of(node.children) == node);
        } else {
            lemma_flattened_of_fragment_free(node.children);
        }
    }
}

/// The collapse leaves a run of settled subtrees as it is.
pub proof fn lemma_settled_all_kept(nodes: Seq<DomModel>)
    requires
        all_settled(nodes),
    ensures
        collapsed_all(nodes) == nodes,
    decreases nodes, 0nat,
{
    if nodes.len() > 0 {
        assert(settled(nodes[nodes.len() - 1]));
        assert forall|i: int| 0 <= i < nodes.drop_last().len() implies settled(
            #[trigger] nodes.drop_last()[i],
        ) by {
            assert(nodes.drop_last()[i] == nodes[i]);
        }
        lemma_settled_all_kept(nodes.drop_last());
        lemma_settled_is_kept(nodes.last());
        assert(nodes.drop_last() + seq![nodes.last()] =~= nodes);
    } else {
        assert(collapsed_all(nodes) =~= nodes);
    }
}

/// Collapsing twice is collapsing once: what the collapse leaves of a
/// tree, it leaves as it is.
pub proof fn lemma_collapse_idempotent(node: DomModel)
    ensures
        match collapsed(node) {
            Some(c) => collapsed(c) == Some(c),
            None => true,
        },
{
    lemma_collapsed_is_settled(node);
    if collapsed(node) is Some {
        lemma_settled_is_kept(collapsed(node)->0);
    }
}

/// After the collapse no fragment is without children, neither the result
/// itself nor, in a result that is no text node, any node below it that
/// has no text node above it.
pub proof fn lemma_collapse_leaves_no_empty_fragment(node: DomModel)
    ensures
        match collapsed(node) {
            Some(c) => settled(c) && !(c.is_fragment() && c.children.len() == 0),
            None => true,
        },
{
    lemma_collapsed_is_settled(node);
}

/// The number of nodes that the full outline takes of the subtree at
/// `node`: every node that does not lie below the greatest depth.
pub open spec fn dom_count(node: DomModel, depth: nat, opts: OptionsModel) -> nat
    decreases node,
{
    if opts.cuts(depth) {
        0
    } else {
        1 + dom_count_all(node.children, depth + 1, opts)
    }
}

/// The number of nodes that the full outline takes of the subtrees at
/// `nodes`.
pub open spec fn dom_count_all(nodes: Seq<DomModel>, depth: nat, opts: OptionsModel) -> nat
    decreases nodes,
{
    if nodes.len() == 0 {
        0
    } else {
        dom_count_all(nodes.drop_last(), depth, opts) + dom_count(nodes.last(), depth, opts)
    }
}

/// The number of nodes that the collapsed outline takes of the subtree at
/// `node`: as the full outline, but for a single text child, which is
/// written on its parent's line.
pub open spec fn mini_count(node: DomModel, depth: nat, opts: OptionsModel) -> nat
    decreases node,
{
    if opts.cuts(depth) {
        0
    } else if node.inlines_text() {
        1
    } else {
        1 + mini_count_all(node.children, depth + 1, opts)
    }
}

/// The number of nodes that the collapsed outline takes of the subtrees at
/// `nodes`.
pub open spec fn mini_count_all(nodes: Seq<DomModel>, depth: nat, opts: OptionsModel) -> nat
    decreases nodes,
{
    if nodes.len() == 0 {
        0
    } else {
        mini_count_all(nodes.drop_last(), depth, opts) + mini_count(nodes.last(), depth, opts)
    }
}

/// The full outline has one line for each node taken, no more and no less.
pub proof fn lemma_dom_line_count(node: DomModel, depth: nat, opts: OptionsModel)
    ensures
        dom_lines(node, depth, opts).len() == dom_count(node, depth, opts),
        dom_shown(node, depth, opts).len() == dom_count(node, depth, opts),
    decreases node, 1nat,
{
    if !opts.cuts(depth) {
        lemma_dom_line_count_all(node.children, depth + 1, opts);
    }
}

/// The full outline of a run of subtrees has one line for each node taken.
pub proof fn lemma_dom_line_count_all(nodes: Seq<DomModel>, depth: nat, opts: OptionsModel)
    ensures
        dom_shown_all(nodes, depth, opts).len() == dom_count_all(nodes, depth, opts),
    decreases nodes, 0nat,
{
    if nodes.len() > 0 {
        lemma_dom_line_count_all(nodes.drop_last(), depth, opts);
        lemma_dom_line_count(nodes.last(), depth, opts);
    }
}

/// The collapsed outline has one line for each node taken, no more and no
/// less.
pub proof fn lemma_mini_line_count(node: DomModel, depth: nat, opts: OptionsModel)
    ensures
        mini_lines(node, depth, opts).len() == mini_count(node, depth, opts),
        mini_shown(node, depth, opts).len() == mini_count(node, depth, opts),
    decreases node, 1nat,
{
    if !opts.cuts(depth) && !node.inlines_text() {
        lemma_mini_line_count_all(node.children, depth + 1, opts);
    }
}

/// The collapsed outline of a run of subtrees has one line for each node
/// taken.
pub proof fn lemma_mini_line_count_all(nodes: Seq<DomModel>, depth: nat, opts: OptionsModel)
    ensures
        mini_shown_all(nodes, depth, opts).len() == mini_count_all(nodes, depth, opts),
    decreases nodes, 0nat,
{
    if nodes.len() > 0 {
        lemma_mini_line_count_all(nodes.drop_last(), depth, opts);
        lemma_mini_line_count(nodes.last(), depth, opts);
    }
}

/// Each line of the full outline is indented by two blanks for each level
/// of the depth at which its node is shown.
pub proof fn lemma_dom_lines_indented(node: DomModel, depth: nat, opts: OptionsModel)
    ensures
        forall|i: int|
            0 <= i < dom_lines(node, depth, opts).len() ==> indented_by(
                #[trigger] dom_lines(node, depth, opts)[i],
                dom_shown(node, depth, opts)[i].depth,
            ),
{
    let shown = dom_shown(node, depth, opts);
    assert forall|i: int| 0 <= i < dom_lines(node, depth, opts).len() implies indented_by(
        #[trigger] dom_lines(node, depth, opts)[i],
        shown[i].depth,
    ) by {
        lemma_indented(shown[i].depth, dom_body(shown[i].node));
    }
}

/// Each line of the collapsed outline is indented by two blanks for each
/// level of the depth at which its node is shown.
pub proof fn lemma_mini_lines_indented(node: DomModel, depth: nat, opts: OptionsModel)
    ensures
        forall|i: int|
            0 <= i < mini_lines(node, depth, opts).len() ==> indented_by(
                #[trigger] mini_lines(node, depth, opts)[i],
                mini_shown(node, depth, opts)[i].depth,
            ),
{
    let shown = mini_shown(node, depth, opts);
    assert forall|i: int| 0 <= i < mini_lines(node, depth, opts).len() implies indented_by(
        #[trigger] mini_lines(node, depth, opts)[i],
        shown[i].depth,
    ) by {
        lemma_indented(shown[i].depth, dom_body(shown[i].node) + inline_text(shown[i].node));
        assert(mini_lines(node, depth, opts)[i] =~= crate::text::indent(shown[i].depth) + "- "@
            + (dom_body(shown[i].node) + inline_text(shown[i].node)));
    }
}

/// With the greatest depth at 0 either outline of a root is one line.
pub proof fn lemma_dom_depth_zero(root: DomModel, opts: OptionsModel)
    requires
        opts.max_depth == Some(0nat),
    ensures
        dom_lines(root, 0, opts).len() == 1,
        mini_lines(root, 0, opts).len() == 1,
{
    lemma_dom_cut(root.children, 1, opts);
}

} // verus!
