//! What holds of the outline of the component tree, whatever the tree and
//! the options.
use vstd::prelude::*;
use crate::fiber::{
    fiber_body, fiber_lines, fiber_lines_of, fiber_shown, fiber_shown_all, filtered_lines,
    filtered_roots, filtered_roots_all, interactive_tag, NodeModel, Shown,
};
use crate::glob::{lemma_star_then_text, lemma_text_then_star, name_matches};
use crate::options::OptionsModel;
use crate::text::{contains_text, indented_by, lemma_indented, lower};

verus! {

/// The number of nodes that the outline takes of the subtree at `node`: a
/// node below the greatest depth is not taken, nor anything under it; a
/// node passed over is not taken, its children are looked at in its
/// place; a node dropped is not taken, nor anything under it.
pub open spec fn fiber_count(node: NodeModel, depth: nat, opts: OptionsModel) -> nat
    decreases node,
{
    if opts.cuts(depth) {
        0
    } else if node.passed_over(opts) {
        fiber_count_all(node.children, depth, opts)
    } else if node.dropped(opts) {
        0
    } else {
        1 + fiber_count_all(node.children, depth + 1, opts)
    }
}

/// The number of nodes that the outline takes of the subtrees at `nodes`.
pub open spec fn fiber_count_all(nodes: Seq<NodeModel>, depth: nat, opts: OptionsModel) -> nat
    decreases nodes,
{
    if nodes.len() == 0 {
        0
    } else {
        fiber_count_all(nodes.drop_last(), depth, opts) + fiber_count(nodes.last(), depth, opts)
    }
}

/// Every node shown lies at `depth` or deeper, and none below the greatest
/// depth.
pub open spec fn depths_within(shown: Seq<Shown>, depth: nat, opts: OptionsModel) -> bool {
    forall|i: int|
        0 <= i < shown.len() ==> depth <= (#[trigger] shown[i]).depth && !opts.cuts(shown[i].depth)
}

/// Every host element shown has an interactive tag.
pub open spec fn hosts_interactive(shown: Seq<Shown>) -> bool {
    forall|i: int|
        0 <= i < shown.len() ==> (#[trigger] shown[i]).node.is_component || interactive_tag(
            shown[i].node.tag_text(),
        )
}

/// Every component shown has an interactive host element in it.
pub open spec fn components_live(shown: Seq<Shown>) -> bool {
    forall|i: int|
        0 <= i < shown.len() && (#[trigger] shown[i]).node.is_component
            ==> shown[i].node.has_interactive()
}

/// The outline has one line for each node taken, no more and no less.
pub proof fn lemma_fiber_line_count(node: NodeModel, depth: nat, opts: OptionsModel)
    ensures
        fiber_lines(node, depth, opts).len() == fiber_count(node, depth, opts),
        fiber_shown(node, depth, opts).len() == fiber_count(node, depth, opts),
    decreases node, 1nat,
{
    if !opts.cuts(depth) {
        if node.passed_over(opts) {
            lemma_fiber_line_count_all(node.children, depth, opts);
        } else if !node.dropped(opts) {
            lemma_fiber_line_count_all(node.children, depth + 1, opts);
        }
    }
}

/// The outline of a run of subtrees has one line for each node taken.
pub proof fn lemma_fiber_line_count_all(nodes: Seq<NodeModel>, depth: nat, opts: OptionsModel)
    ensures
        fiber_shown_all(nodes, depth, opts).len() == fiber_count_all(nodes, depth, opts),
    decreases nodes, 0nat,
{
    if nodes.len() > 0 {
        lemma_fiber_line_count_all(nodes.drop_last(), depth, opts);
        lemma_fiber_line_count(nodes.last(), depth, opts);
    }
}

/// Each line is indented by two blanks for each level of the depth at
/// which its node is shown.
pub proof fn lemma_fiber_lines_indented(shown: Seq<Shown>)
    ensures
        forall|i: int|
            0 <= i < shown.len() ==> indented_by(
                #[trigger] fiber_lines_of(shown)[i],
                shown[i].depth,
            ),
{
    assert forall|i: int| 0 <= i < shown.len() implies indented_by(
        #[trigger] fiber_lines_of(shown)[i],
        shown[i].depth,
    ) by {
        lemma_indented(shown[i].depth, fiber_body(shown[i].node));
    }
}

/// Each line of the outline of a subtree is indented by two blanks for each
/// level of the depth at which its node is shown.
pub proof fn lemma_fiber_outline_indented(node: NodeModel, depth: nat, opts: OptionsModel)
    ensures
        forall|i: int|
            0 <= i < fiber_lines(node, depth, opts).len() ==> indented_by(
                #[trigger] fiber_lines(node, depth, opts)[i],
                fiber_shown(node, depth, opts)[i].depth,
            ),
{
    lemma_fiber_lines_indented(fiber_shown(node, depth, opts));
}

/// The nodes shown of the subtree at `node`, drawn from `depth`, lie at
/// `depth` or deeper and not below the greatest depth. A node that is shown
/// itself comes first, at `depth`, and what follows it lies deeper.
pub proof fn lemma_fiber_depths(node: NodeModel, depth: nat, opts: OptionsModel)
    ensures
        depths_within(fiber_shown(node, depth, opts), depth, opts),
        !opts.cuts(depth) && !node.passed_over(opts) && !node.dropped(opts) ==> {
            &&& fiber_shown(node, depth, opts).len() >= 1
            &&& fiber_shown(node, depth, opts)[0] == Shown { depth, node }
            &&& forall|i: int|
                1 <= i < fiber_shown(node, depth, opts).len() ==> (#[trigger] fiber_shown(
                    node,
                    depth,
                    opts,
                )[i]).depth > depth
        },
    decreases node, 1nat,
{
    if !opts.cuts(depth) {
        if node.passed_over(opts) {
            lemma_fiber_depths_all(node.children, depth, opts);
        } else if !node.dropped(opts) {
            lemma_fiber_depths_all(node.children, depth + 1, opts);
            let rest = fiber_shown_all(node.children, depth + 1, opts);
            let all = fiber_shown(node, depth, opts);
            assert forall|i: int| 1 <= i < all.len() implies (#[trigger] all[i]).depth > depth by {
                assert(all[i] == rest[i - 1]);
            }
            assert forall|i: int| 0 <= i < all.len() implies depth <= (#[trigger] all[i]).depth
                && !opts.cuts(all[i].depth) by {
                if i > 0 {
                    assert(all[i] == rest[i - 1]);
                }
            }
        }
    }
}

/// The nodes shown of a run of subtrees lie at `depth` or deeper and not
/// below the greatest depth.
pub proof fn lemma_fiber_depths_all(nodes: Seq<NodeModel>, depth: nat, opts: OptionsModel)
    ensures
        depths_within(fiber_shown_all(nodes, depth, opts), depth, opts),
    decreases nodes, 0nat,
{
    if nodes.len() > 0 {
        lemma_fiber_depths_all(nodes.drop_last(), depth, opts);
        lemma_fiber_depths(nodes.last(), depth, opts);
        let a = fiber_shown_all(nodes.drop_last(), depth, opts);
        let b = fiber_shown(nodes.last(), depth, opts);
        assert forall|i: int| 0 <= i < (a + b).len() implies depth <= (#[trigger] (a + b)[i]).depth
            && !opts.cuts((a + b)[i].depth) by {
            if i < a.len() {
                assert((a + b)[i] == a[i]);
            } else {
                assert((a + b)[i] == b[i - a.len()]);
            }
        }
    }
}

/// With the greatest depth at 0, a root that the interactive filter does
/// not pass over gives one line at most. (A root that is passed over hands
/// its children up to depth 0, each with a line of its own.)
pub proof fn lemma_fiber_depth_zero(root: NodeModel, opts: OptionsModel)
    requires
        opts.max_depth == Some(0nat),
        !root.passed_over(opts),
    ensures
        fiber_lines(root, 0, opts).len() <= 1,
{
    lemma_fiber_depths_all(root.children, 1, opts);
    let below = fiber_shown_all(root.children, 1, opts);
    if below.len() > 0 {
        assert(!opts.cuts(below[0].depth));
    }
}

/// Under the interactive filter every host element shown has an
/// interactive tag.
pub proof fn lemma_interactive_hosts(node: NodeModel, depth: nat, opts: OptionsModel)
    requires
        opts.interactive,
    ensures
        hosts_interactive(fiber_shown(node, depth, opts)),
    decreases node, 1nat,
{
    if !opts.cuts(depth) {
        if node.passed_over(opts) {
            lemma_interactive_hosts_all(node.children, depth, opts);
        } else if !node.dropped(opts) {
            lemma_interactive_hosts_all(node.children, depth + 1, opts);
            let rest = fiber_shown_all(node.children, depth + 1, opts);
            let all = fiber_shown(node, depth, opts);
            assert forall|i: int| 0 <= i < all.len() implies (#[trigger] all[i]).node.is_component
                || interactive_tag(all[i].node.tag_text()) by {
                if i > 0 {
                    assert(all[i] == rest[i - 1]);
                }
            }
        }
    }
}

/// Under the interactive filter every host element shown of a run of
/// subtrees has an interactive tag.
pub proof fn lemma_interactive_hosts_all(nodes: Seq<NodeModel>, depth: nat, opts: OptionsModel)
    requires
        opts.interactive,
    ensures
        hosts_interactive(fiber_shown_all(nodes, depth, opts)),
    decreases nodes, 0nat,
{
    if nodes.len() > 0 {
        lemma_interactive_hosts_all(nodes.drop_last(), depth, opts);
        lemma_interactive_hosts(nodes.last(), depth, opts);
        let a = fiber_shown_all(nodes.drop_last(), depth, opts);
        let b = fiber_shown(nodes.last(), depth, opts);
        assert forall|i: int| 0 <= i < (a + b).len() implies (#[trigger] (a + b)[i]).node.is_component
            || interactive_tag((a + b)[i].node.tag_text()) by {
            if i < a.len() {
                assert((a + b)[i] == a[i]);
            } else {
                assert((a + b)[i] == b[i - a.len()]);
            }
        }
    }
}

/// Under the compact filter every component shown has an interactive host
/// element in it.
pub proof fn lemma_compact_components(node: NodeModel, depth: nat, opts: OptionsModel)
    requires
        opts.compact,
    ensures
        components_live(fiber_shown(node, depth, opts)),
    decreases node, 1nat,
{
    if !opts.cuts(depth) {
        if node.passed_over(opts) {
            lemma_compact_components_all(node.children, depth, opts);
        } else if !node.dropped(opts) {
            lemma_compact_components_all(node.children, depth + 1, opts);
            let rest = fiber_shown_all(node.children, depth + 1, opts);
            let all = fiber_shown(node, depth, opts);
            assert forall|i: int|
                0 <= i < all.len() && (#[trigger] all[i]).node.is_component implies all[
                i].node.has_interactive() by {
                if i > 0 {
                    assert(all[i] == rest[i - 1]);
                }
            }
        }
    }
}

/// Under the compact filter every component shown of a run of subtrees has
/// an interactive host element in it.
pub proof fn lemma_compact_components_all(nodes: Seq<NodeModel>, depth: nat, opts: OptionsModel)
    requires
        opts.compact,
    ensures
        components_live(fiber_shown_all(nodes, depth, opts)),
    decreases nodes, 0nat,
{
    if nodes.len() > 0 {
        lemma_compact_components_all(nodes.drop_last(), depth, opts);
        lemma_compact_components(nodes.last(), depth, opts);
        let a = fiber_shown_all(nodes.drop_last(), depth, opts);
        let b = fiber_shown(nodes.last(), depth, opts);
        assert forall|i: int|
            0 <= i < (a + b).len() && (#[trigger] (a + b)[i]).node.is_component implies (a
            + b)[i].node.has_interactive() by {
            if i < a.len() {
                assert((a + b)[i] == a[i]);
            } else {
                assert((a + b)[i] == b[i - a.len()]);
            }
        }
    }
}

/// Every node of the list has a name that passes the filter.
pub open spec fn names_match(nodes: Seq<NodeModel>, filter: Seq<char>) -> bool {
    forall|i: int| 0 <= i < nodes.len() ==> name_matches((#[trigger] nodes[i]).name, filter)
}

/// Under a filter every root that is drawn has a name that passes the
/// filter.
pub proof fn lemma_filtered_roots_match(node: NodeModel, filter: Seq<char>)
    ensures
        names_match(filtered_roots(node, filter), filter),
    decreases node, 1nat,
{
    lemma_filtered_roots_all_match(node.children, filter);
    let own = if name_matches(node.name, filter) {
        seq![node]
    } else {
        Seq::empty()
    };
    let rest = filtered_roots_all(node.children, filter);
    assert forall|i: int| 0 <= i < (own + rest).len() implies name_matches(
        (#[trigger] (own + rest)[i]).name,
        filter,
    ) by {
        if i < own.len() {
            assert((own + rest)[i] == own[i]);
        } else {
            assert((own + rest)[i] == rest[i - own.len()]);
        }
    }
}

/// Under a filter every root that is drawn of a run of subtrees has a name
/// that passes the filter.
pub proof fn lemma_filtered_roots_all_match(nodes: Seq<NodeModel>, filter: Seq<char>)
    ensures
        names_match(filtered_roots_all(nodes, filter), filter),
    decreases nodes, 0nat,
{
    if nodes.len() > 0 {
        lemma_filtered_roots_all_match(nodes.drop_last(), filter);
        lemma_filtered_roots_match(nodes.last(), filter);
        let a = filtered_roots_all(nodes.drop_last(), filter);
        let b = filtered_roots(nodes.last(), filter);
        assert forall|i: int| 0 <= i < (a + b).len() implies name_matches(
            (#[trigger] (a + b)[i]).name,
            filter,
        ) by {
            if i < a.len() {
                assert((a + b)[i] == a[i]);
            } else {
                assert((a + b)[i] == b[i - a.len()]);
            }
        }
    }
}

/// No root of the list is passed over by the interactive filter.
pub open spec fn none_passed_over(roots: Seq<NodeModel>, opts: OptionsModel) -> bool {
    forall|i: int| 0 <= i < roots.len() ==> !(#[trigger] roots[i]).passed_over(opts)
}

/// The nodes shown at depth 0 of roots that match, none of them passed
/// over, match as well: they are the roots themselves.
pub proof fn lemma_top_lines_match(roots: Seq<NodeModel>, filter: Seq<char>, opts: OptionsModel)
    requires
        names_match(roots, filter),
        none_passed_over(roots, opts),
    ensures
        forall|i: int|
            0 <= i < fiber_shown_all(roots, 0, opts).len() && (#[trigger] fiber_shown_all(
                roots,
                0,
                opts,
            )[i]).depth == 0 ==> name_matches(fiber_shown_all(roots, 0, opts)[i].node.name, filter),
    decreases roots.len(),
{
    if roots.len() > 0 {
        let last = roots.last();
        assert(last == roots[roots.len() - 1]);
        assert forall|i: int| 0 <= i < roots.drop_last().len() implies name_matches(
            (#[trigger] roots.drop_last()[i]).name,
            filter,
        ) && !roots.drop_last()[i].passed_over(opts) by {
            assert(roots.drop_last()[i] == roots[i]);
        }
        lemma_top_lines_match(roots.drop_last(), filter, opts);
        lemma_fiber_depths(last, 0, opts);
        let a = fiber_shown_all(roots.drop_last(), 0, opts);
        let b = fiber_shown(last, 0, opts);
        assert forall|i: int|
            0 <= i < (a + b).len() && (#[trigger] (a + b)[i]).depth == 0 implies name_matches(
            (a + b)[i].node.name,
            filter,
        ) by {
            if i < a.len() {
                assert((a + b)[i] == a[i]);
            } else {
                assert((a + b)[i] == b[i - a.len()]);
            }
        }
    }
}

/// Under a filter without `*`, every line at depth 0 is that of a node
/// whose name holds the filter, ASCII case ignored, where the interactive
/// filter passes over none of the roots drawn. (Where it passes over one,
/// that root's children stand at depth 0 in its place.)
pub proof fn lemma_substring_filter_roots(node: NodeModel, opts: OptionsModel)
    requires
        opts.filter is Some,
        !opts.filter_text().contains('*'),
        none_passed_over(filtered_roots(node, opts.filter_text()), opts),
    ensures
        filtered_lines(node, opts) == fiber_lines_of(
            fiber_shown_all(filtered_roots(node, opts.filter_text()), 0, opts),
        ),
        forall|i: int|
            0 <= i < filtered_roots(node, opts.filter_text()).len() ==> contains_text(
                lower((#[trigger] filtered_roots(node, opts.filter_text())[i]).name),
                lower(opts.filter_text()),
            ),
        forall|i: int|
            0 <= i < fiber_shown_all(filtered_roots(node, opts.filter_text()), 0, opts).len() && (
            #[trigger] fiber_shown_all(filtered_roots(node, opts.filter_text()), 0, opts)[i]).depth
                == 0 ==> contains_text(
                lower(
                    fiber_shown_all(filtered_roots(node, opts.filter_text()), 0, opts)[i].node.name,
                ),
                lower(opts.filter_text()),
            ),
{
    let filter = opts.filter_text();
    let roots = filtered_roots(node, filter);
    lemma_filtered_roots_match(node, filter);
    lemma_top_lines_match(roots, filter, opts);
    assert forall|i: int| 0 <= i < roots.len() implies contains_text(
        lower((#[trigger] roots[i]).name),
        lower(filter),
    ) by {
        assert(name_matches(roots[i].name, filter));
    }
}

/// Under the filter `*P`, where `P` holds no `*`, the name of every root
/// drawn ends with `P`; under `P*` it starts with `P`; ASCII case ignored.
pub proof fn lemma_glob_filter_roots(node: NodeModel, p: Seq<char>)
    requires
        !p.contains('*'),
    ensures
        forall|i: int|
            0 <= i < filtered_roots(node, seq!['*'] + p).len() ==> lower(p).is_suffix_of(
                lower((#[trigger] filtered_roots(node, seq!['*'] + p)[i]).name),
            ),
        forall|i: int|
            0 <= i < filtered_roots(node, p + seq!['*']).len() ==> lower(p).is_prefix_of(
                lower((#[trigger] filtered_roots(node, p + seq!['*'])[i]).name),
            ),
{
    let ends = seq!['*'] + p;
    let starts = p + seq!['*'];
    lemma_filtered_roots_match(node, ends);
    lemma_filtered_roots_match(node, starts);
    assert forall|i: int| 0 <= i < filtered_roots(node, ends).len() implies lower(p).is_suffix_of(
        lower((#[trigger] filtered_roots(node, ends)[i]).name),
    ) by {
        lemma_star_then_text(filtered_roots(node, ends)[i].name, p);
    }
    assert forall|i: int| 0 <= i < filtered_roots(node, starts).len() implies lower(
        p,
    ).is_prefix_of(lower((#[trigger] filtered_roots(node, starts)[i]).name)) by {
        lemma_text_then_star(filtered_roots(node, starts)[i].name, p);
    }
}

} // verus!
