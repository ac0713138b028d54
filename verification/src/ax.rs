//! The accessibility tree: the flat list of nodes that the browser hands
//! out, the tree rebuilt from it, and the outline drawn of the tree.
use vstd::prelude::*;
use crate::json::JsonScalar;
use crate::options::{OptionsModel, SnapshotOptions};
use crate::text::{indent, push_indent, same_text, texts};

verus! {

/// A value of the accessibility tree.
pub struct AXValue {
    pub value: Option<JsonScalar>,
}

/// A node of the accessibility tree. In the flat list the nodes are linked
/// by `child_ids`; in the rebuilt tree `children` holds the nodes
/// themselves.
pub struct AXNode {
    pub node_id: String,
    pub role: Option<AXValue>,
    pub name: Option<AXValue>,
    pub children: Option<Vec<AXNode>>,
    pub child_ids: Vec<String>,
}

/// The mathematical model of an [`AXNode`]. `role` and `name` are the
/// texts of the two values: `None` where the value is absent or no string.
pub struct AxModel {
    pub node_id: Seq<char>,
    pub role: Option<Seq<char>>,
    pub name: Option<Seq<char>>,
    pub children: Option<Seq<AxModel>>,
    pub child_ids: Seq<Seq<char>>,
}

/// The text of a value: that of a string, none of anything else.
pub open spec fn value_text(v: Option<AXValue>) -> Option<Seq<char>> {
    match v {
        Some(AXValue { value: Some(JsonScalar::Text(s)) }) => Some(s@),
        _ => None,
    }
}

/// The character sequences of a list of strings.
pub open spec fn id_texts(ids: Seq<String>) -> Seq<Seq<char>> {
    Seq::new(ids.len(), |i: int| ids[i]@)
}

/// The model of a node: its fields by their views, its children by their
/// models.
pub open spec fn ax_model(node: AXNode) -> AxModel
    decreases node,
{
    AxModel {
        node_id: node.node_id@,
        role: value_text(node.role),
        name: value_text(node.name),
        children: match node.children {
            Some(kids) => Some(
                Seq::new(
                    kids.len() as nat,
                    |i: int|
                        if 0 <= i < kids.len() {
                            ax_model(kids[i])
                        } else {
                            arbitrary()
                        },
                ),
            ),
            None => None,
        },
        child_ids: id_texts(node.child_ids@),
    }
}

impl View for AXNode {
    type V = AxModel;

    open spec fn view(&self) -> AxModel {
        ax_model(*self)
    }
}

/// The models of a list of nodes.
pub open spec fn ax_models(nodes: Seq<AXNode>) -> Seq<AxModel> {
    Seq::new(nodes.len(), |i: int| nodes[i]@)
}

/// The roles of the nodes that a user can act on.
pub open spec fn interactive_role(role: Seq<char>) -> bool {
    role == "button"@ || role == "link"@ || role == "textbox"@ || role == "checkbox"@ || role
        == "radio"@ || role == "combobox"@ || role == "listbox"@ || role == "menuitem"@ || role
        == "menuitemcheckbox"@ || role == "menuitemradio"@ || role == "option"@ || role
        == "searchbox"@ || role == "slider"@ || role == "spinbutton"@ || role == "switch"@ || role
        == "tab"@ || role == "treeitem"@
}

/// The roles of nodes that are never shown.
pub open spec fn ignored_role(role: Seq<char>) -> bool {
    role == "none"@ || role == "Ignored"@ || role == "generic"@
}

impl AxModel {
    /// The role, or the empty text where there is none.
    pub open spec fn role_text(self) -> Seq<char> {
        match self.role {
            Some(r) => r,
            None => Seq::empty(),
        }
    }

    /// The name, or the empty text where there is none.
    pub open spec fn name_text(self) -> Seq<char> {
        match self.name {
            Some(n) => n,
            None => Seq::empty(),
        }
    }

    /// The children, or none where the tree was not rebuilt.
    pub open spec fn kids(self) -> Seq<AxModel> {
        match self.children {
            Some(k) => k,
            None => Seq::empty(),
        }
    }

    /// Left out of the outline, its children moving up to its depth: a
    /// node with an ignored role; under the interactive filter, one whose
    /// role is not interactive; under the compact filter, one without a
    /// name whose role is not interactive.
    pub open spec fn passed_over(self, opts: OptionsModel) -> bool {
        ignored_role(self.role_text()) || (opts.interactive && !interactive_role(self.role_text()))
            || (opts.compact && self.name_text().len() == 0 && !interactive_role(
            self.role_text(),
        ))
    }
}

/// A node that the outline shows, with the depth at which it is shown.
pub struct AxShown {
    pub depth: nat,
    pub node: AxModel,
}

/// The nodes shown of the subtree at `node`, in the order of their lines.
/// Nothing is shown below the greatest depth: a node passed over there
/// would hand its children up to the same depth, which is cut as well.
pub open spec fn ax_shown(node: AxModel, depth: nat, opts: OptionsModel) -> Seq<AxShown>
    decreases node,
{
    if opts.cuts(depth) {
        Seq::empty()
    } else {
        match node.children {
            Some(k) => if node.passed_over(opts) {
                ax_shown_all(k, depth, opts)
            } else {
                seq![AxShown { depth, node }] + ax_shown_all(k, depth + 1, opts)
            },
            None => if node.passed_over(opts) {
                Seq::empty()
            } else {
                seq![AxShown { depth, node }]
            },
        }
    }
}

/// The nodes shown of the subtrees at `nodes`, one after the other.
pub open spec fn ax_shown_all(nodes: Seq<AxModel>, depth: nat, opts: OptionsModel) -> Seq<AxShown>
    decreases nodes,
{
    if nodes.len() == 0 {
        Seq::empty()
    } else {
        ax_shown_all(nodes.drop_last(), depth, opts) + ax_shown(nodes.last(), depth, opts)
    }
}

/// The line of a node at `depth`: the role, and the name in quotes where
/// it is not empty.
pub open spec fn ax_line(depth: nat, node: AxModel) -> Seq<char> {
    indent(depth) + "- "@ + node.role_text() + (if node.name_text().len() == 0 {
        Seq::empty()
    } else {
        " \""@ + node.name_text() + "\""@
    })
}

/// The lines of the nodes shown.
pub open spec fn ax_lines_of(shown: Seq<AxShown>) -> Seq<Seq<char>> {
    Seq::new(shown.len(), |i: int| ax_line(shown[i].depth, shown[i].node))
}

/// The outline of the subtree at `node`, a line for each node shown.
pub open spec fn ax_lines(node: AxModel, depth: nat, opts: OptionsModel) -> Seq<Seq<char>> {
    ax_lines_of(ax_shown(node, depth, opts))
}

/// The outline of the subtrees at `nodes`, one after the other.
pub open spec fn ax_lines_all(nodes: Seq<AxModel>, depth: nat, opts: OptionsModel) -> Seq<
    Seq<char>,
> {
    ax_lines_of(ax_shown_all(nodes, depth, opts))
}

/// Adding the last subtree's nodes to those of the subtrees before it.
pub proof fn lemma_ax_shown_all_step(nodes: Seq<AxModel>, i: int, depth: nat, opts: OptionsModel)
    requires
        0 <= i < nodes.len(),
    ensures
        ax_shown_all(nodes.take(i + 1), depth, opts) == ax_shown_all(nodes.take(i), depth, opts)
            + ax_shown(nodes[i], depth, opts),
{
    let upto = nodes.take(i + 1);
    assert(upto.drop_last() =~= nodes.take(i));
    assert(upto.last() == nodes[i]);
}

/// Whether a role is one of a node that a user can act on.
pub fn is_interactive_role(role: &str) -> (r: bool)
    ensures
        r == interactive_role(role@),
{
    same_text(role, "button") || same_text(role, "link") || same_text(role, "textbox")
        || same_text(role, "checkbox") || same_text(role, "radio") || same_text(role, "combobox")
        || same_text(role, "listbox") || same_text(role, "menuitem") || same_text(
        role,
        "menuitemcheckbox",
    ) || same_text(role, "menuitemradio") || same_text(role, "option") || same_text(
        role,
        "searchbox",
    ) || same_text(role, "slider") || same_text(role, "spinbutton") || same_text(role, "switch")
        || same_text(role, "tab") || same_text(role, "treeitem")
}

/// The text of a value: a copy of the string that it holds, `None` where it
/// is absent or holds no string.
pub fn ax_value_str(v: &Option<AXValue>) -> (r: Option<String>)
    ensures
        match r {
            Some(s) => value_text(*v) == Some(s@),
            None => value_text(*v) is None,
        },
{
    match v {
        Some(av) => match &av.value {
            Some(scalar) => match scalar {
                JsonScalar::Text(s) => Some(s.clone()),
                _ => None,
            },
            None => None,
        },
        None => None,
    }
}

impl AXNode {
    /// The children's models are the model's children.
    pub proof fn lemma_children(&self)
        ensures
            self@.children == match self.children {
                Some(k) => Some(ax_models(k@)),
                None => None,
            },
    {
        match self.children {
            Some(k) => {
                assert(self@.children->0 =~= ax_models(k@));
            },
            None => {},
        }
    }
}

/// The line of a node at `depth`, and whether the outline passes over the
/// node.
fn ax_line_of(node: &AXNode, depth: usize, opts: &SnapshotOptions) -> (r: (bool, String))
    ensures
        r.0 == node@.passed_over(opts@),
        r.1@ == ax_line(depth as nat, node@),
{
    let role = match ax_value_str(&node.role) {
        Some(s) => s,
        None => String::new(),
    };
    let name = match ax_value_str(&node.name) {
        Some(s) => s,
        None => String::new(),
    };
    assert(role@ =~= node@.role_text());
    assert(name@ =~= node@.name_text());
    let nameless = name.as_str().unicode_len() == 0;
    let ignored = same_text(role.as_str(), "none") || same_text(role.as_str(), "Ignored")
        || same_text(role.as_str(), "generic");
    let acts = is_interactive_role(role.as_str());
    let over = ignored || (opts.interactive && !acts) || (opts.compact && nameless && !acts);
    let mut line = String::new();
    push_indent(&mut line, depth);
    line.append("- ");
    line.append(role.as_str());
    if !nameless {
        line.append(" \"");
        line.append(name.as_str());
        line.append("\"");
    }
    assert(line@ =~= ax_line(depth as nat, node@));
    (over, line)
}

/// Below the greatest depth nothing is shown: the children that a node
/// passed over there hands up stand at the same depth, and are cut as well.
pub proof fn lemma_ax_cut(nodes: Seq<AxModel>, depth: nat, opts: OptionsModel)
    requires
        opts.cuts(depth),
    ensures
        ax_shown_all(nodes, depth, opts).len() == 0,
    decreases nodes.len(),
{
    if nodes.len() > 0 {
        lemma_ax_cut(nodes.drop_last(), depth, opts);
        assert(ax_shown(nodes.last(), depth, opts).len() == 0);
    }
}

/// Writes the outlines of the subtrees at `nodes`, each root at `depth`, at
/// the end of `lines`.
pub(crate) fn format_ax_nodes(
    nodes: &Vec<AXNode>,
    depth: usize,
    opts: &SnapshotOptions,
    lines: &mut Vec<String>,
)
    ensures
        texts(final(lines)@) == texts(old(lines)@) + ax_lines_all(
            ax_models(nodes@),
            depth as nat,
            opts@,
        ),
    decreases nodes,
{
    let ghost all = ax_models(nodes@);
    let mut i: usize = 0;
    assert(texts(lines@) =~= texts(old(lines)@) + ax_lines_all(all.take(0), depth as nat, opts@));
    while i < nodes.len()
        invariant
            i <= nodes.len(),
            all == ax_models(nodes@),
            texts(lines@) == texts(old(lines)@) + ax_lines_all(
                all.take(i as int),
                depth as nat,
                opts@,
            ),
        decreases nodes.len() - i,
    {
        proof {
            lemma_ax_shown_all_step(all, i as int, depth as nat, opts@);
        }
        format_ax_node(&nodes[i], depth, opts, lines);
        i += 1;
        assert(texts(lines@) =~= texts(old(lines)@) + ax_lines_all(
            all.take(i as int),
            depth as nat,
            opts@,
        ));
    }
    assert(all.take(nodes.len() as int) =~= all);
}

/// Writes the outline of the subtree at `node`, with `node` at `depth`, at
/// the end of `lines`.
pub fn format_ax_node(node: &AXNode, depth: usize, opts: &SnapshotOptions, lines: &mut Vec<String>)
    ensures
        texts(final(lines)@) == texts(old(lines)@) + ax_lines(node@, depth as nat, opts@),
    decreases node,
{
    if opts.cuts(depth) {
        assert(texts(lines@) =~= texts(old(lines)@) + ax_lines(node@, depth as nat, opts@));
        return;
    }
    proof {
        node.lemma_children();
    }
    let (over, line) = ax_line_of(node, depth, opts);
    let ghost own = if over {
        Seq::<AxShown>::empty()
    } else {
        seq![AxShown { depth: depth as nat, node: node@ }]
    };
    if !over {
        lines.push(line);
    }
    let ghost with_own = texts(lines@);
    assert(with_own =~= texts(old(lines)@) + ax_lines_of(own));
    match &node.children {
        Some(children) => {
            let ghost kids = ax_models(children@);
            if over {
                format_ax_nodes(children, depth, opts, lines);
                assert(texts(lines@) =~= texts(old(lines)@) + ax_lines(
                    node@,
                    depth as nat,
                    opts@,
                ));
            } else {
                if depth < usize::MAX {
                    format_ax_nodes(children, depth + 1, opts, lines);
                } else {
                    proof {
                        lemma_ax_cut(kids, (depth + 1) as nat, opts@);
                    }
                }
                let ghost below = ax_shown_all(kids, (depth + 1) as nat, opts@);
                assert(texts(lines@) =~= with_own + ax_lines_of(below));
                assert(texts(lines@) =~= texts(old(lines)@) + ax_lines_of(own + below));
            }
        },
        None => {
            assert(texts(lines@) =~= texts(old(lines)@) + ax_lines(node@, depth as nat, opts@));
        },
    }
}

} // verus!
