//! The component tree: framework components and the host elements under
//! them, and the outline that is drawn of it.
use vstd::prelude::*;
use crate::glob::{name_matches, name_matches_filter};
use crate::json::{
    has_key, items_model, object_entries, object_has_key, object_items, Entries, JsonScalar,
    ScalarModel,
};
use crate::options::{OptionsModel, SnapshotOptions};
use crate::text::{indent, push_indent, push_signed_decimal, same_text, signed_decimal, texts};

verus! {

/// Where a node lies on the page, each coordinate rounded to a whole number.
#[derive(Clone, Copy, Debug, PartialEq, Eq, Structural)]
pub struct BoxRect {
    pub x: i64,
    pub y: i64,
    pub width: i64,
    pub height: i64,
}

/// A node of the component tree: a framework component or a host element.
pub struct TreeNode {
    /// Component name, or the tag of a host element.
    pub name: String,
    /// `true` for a component, `false` for a host element.
    pub is_component: bool,
    /// The properties, in the order supplied.
    pub props: serde_json::Map<String, serde_json::Value>,
    /// A stable handle for the node.
    pub ref_id: Option<String>,
    pub box_rect: Option<BoxRect>,
    pub role: Option<String>,
    /// The accessible name of a host element.
    pub aria_name: Option<String>,
    /// The tag of a host element.
    pub tag: Option<String>,
    /// The attributes of a host element, in the order supplied.
    pub html_attrs: Option<serde_json::Map<String, serde_json::Value>>,
    pub children: Vec<TreeNode>,
}

/// The mathematical model of a [`TreeNode`].
pub struct NodeModel {
    pub name: Seq<char>,
    pub is_component: bool,
    pub props: Entries,
    pub ref_id: Option<Seq<char>>,
    pub box_rect: Option<BoxRect>,
    pub role: Option<Seq<char>>,
    pub aria_name: Option<Seq<char>>,
    pub tag: Option<Seq<char>>,
    pub html_attrs: Option<Entries>,
    pub children: Seq<NodeModel>,
}

/// The characters of an optional string.
pub open spec fn text_of(s: Option<String>) -> Option<Seq<char>> {
    match s {
        Some(t) => Some(t@),
        None => None,
    }
}

/// The entries of an optional JSON object.
pub open spec fn entries_of(m: Option<serde_json::Map<String, serde_json::Value>>) -> Option<
    Entries,
> {
    match m {
        Some(o) => Some(object_entries(o)),
        None => None,
    }
}

/// The model of a node: its fields by their views, its children by their
/// models.
pub open spec fn node_model(node: TreeNode) -> NodeModel
    decreases node,
{
    NodeModel {
        name: node.name@,
        is_component: node.is_component,
        props: object_entries(node.props),
        ref_id: text_of(node.ref_id),
        box_rect: node.box_rect,
        role: text_of(node.role),
        aria_name: text_of(node.aria_name),
        tag: text_of(node.tag),
        html_attrs: entries_of(node.html_attrs),
        children: Seq::new(
            node.children.len() as nat,
            |i: int|
                if 0 <= i < node.children.len() {
                    node_model(node.children[i])
                } else {
                    arbitrary()
                },
        ),
    }
}

impl View for TreeNode {
    type V = NodeModel;

    open spec fn view(&self) -> NodeModel {
        node_model(*self)
    }
}

/// The models of a list of nodes.
pub open spec fn models(nodes: Seq<TreeNode>) -> Seq<NodeModel> {
    Seq::new(nodes.len(), |i: int| nodes[i]@)
}

/// The tags that a user can act on.
pub open spec fn interactive_tag(tag: Seq<char>) -> bool {
    tag == "a"@ || tag == "button"@ || tag == "input"@ || tag == "select"@ || tag == "textarea"@
        || tag == "details"@ || tag == "summary"@
}

impl NodeModel {
    /// The tag, or the empty text where there is none.
    pub open spec fn tag_text(self) -> Seq<char> {
        match self.tag {
            Some(t) => t,
            None => Seq::empty(),
        }
    }

    /// A host element with an interactive tag.
    pub open spec fn is_interactive_host(self) -> bool {
        !self.is_component && self.tag is Some && interactive_tag(self.tag->0)
    }

    /// The node or one of its descendants is an interactive host element.
    pub open spec fn has_interactive(self) -> bool
        decreases self,
    {
        self.is_interactive_host() || any_interactive(self.children)
    }

    /// Left out by the interactive filter: a host element whose tag is not
    /// interactive. Its children move up to its depth.
    pub open spec fn passed_over(self, opts: OptionsModel) -> bool {
        opts.interactive && !self.is_component && !interactive_tag(self.tag_text())
    }

    /// Dropped with its subtree by the compact filter: a component without
    /// an interactive host element in it.
    pub open spec fn dropped(self, opts: OptionsModel) -> bool {
        opts.compact && self.is_component && !self.has_interactive()
    }
}

/// One of the nodes, or one of their descendants, is an interactive host.
pub open spec fn any_interactive(nodes: Seq<NodeModel>) -> bool
    decreases nodes,
{
    nodes.len() > 0 && (any_interactive(nodes.drop_last()) || nodes.last().has_interactive())
}

/// A node that the outline shows, with the depth at which it is shown.
pub struct Shown {
    pub depth: nat,
    pub node: NodeModel,
}

/// The nodes shown of the subtree at `node`, in the order of their lines.
pub open spec fn fiber_shown(node: NodeModel, depth: nat, opts: OptionsModel) -> Seq<Shown>
    decreases node,
{
    if opts.cuts(depth) {
        Seq::empty()
    } else if node.passed_over(opts) {
        fiber_shown_all(node.children, depth, opts)
    } else if node.dropped(opts) {
        Seq::empty()
    } else {
        seq![Shown { depth, node }] + fiber_shown_all(node.children, depth + 1, opts)
    }
}

/// The nodes shown of the subtrees at `nodes`, one after the other.
pub open spec fn fiber_shown_all(nodes: Seq<NodeModel>, depth: nat, opts: OptionsModel) -> Seq<
    Shown,
>
    decreases nodes,
{
    if nodes.len() == 0 {
        Seq::empty()
    } else {
        fiber_shown_all(nodes.drop_last(), depth, opts) + fiber_shown(nodes.last(), depth, opts)
    }
}

/// One property as the line shows it.
pub open spec fn prop_text(key: Seq<char>, value: ScalarModel) -> Seq<char> {
    match value {
        ScalarModel::Text(s) => " "@ + key + "=\""@ + s + "\""@,
        ScalarModel::Number(n) => " "@ + key + "={"@ + n + "}"@,
        ScalarModel::Bool(b) => " "@ + key + "={"@ + (if b {
            "true"@
        } else {
            "false"@
        }) + "}"@,
        ScalarModel::Null => " "@ + key + "={null}"@,
        ScalarModel::Nested => " "@ + key + "={...}"@,
    }
}

/// The properties as the line shows them, in their order.
pub open spec fn props_text(props: Entries) -> Seq<char>
    decreases props.len(),
{
    if props.len() == 0 {
        Seq::empty()
    } else {
        props_text(props.drop_last()) + prop_text(props.last().0, props.last().1)
    }
}

/// One attribute as the line shows it: a string value whose key is not
/// among the properties; nothing else.
pub open spec fn attr_text(props: Entries, key: Seq<char>, value: ScalarModel) -> Seq<char> {
    match value {
        ScalarModel::Text(s) => if has_key(props, key) {
            Seq::empty()
        } else {
            " "@ + key + "=\""@ + s + "\""@
        },
        _ => Seq::empty(),
    }
}

/// The attributes as the line shows them, in their order.
pub open spec fn attrs_text(props: Entries, attrs: Entries) -> Seq<char>
    decreases attrs.len(),
{
    if attrs.len() == 0 {
        Seq::empty()
    } else {
        attrs_text(props, attrs.drop_last()) + attr_text(props, attrs.last().0, attrs.last().1)
    }
}

/// The box as the line shows it.
pub open spec fn box_text(b: BoxRect) -> Seq<char> {
    " [x="@ + signed_decimal(b.x as int) + " y="@ + signed_decimal(b.y as int) + " w="@
        + signed_decimal(b.width as int) + " h="@ + signed_decimal(b.height as int) + "]"@
}

/// The accessible name of a host element as the line shows it.
pub open spec fn aria_text(node: NodeModel) -> Seq<char> {
    if !node.is_component && node.aria_name is Some {
        " \""@ + node.aria_name->0 + "\""@
    } else {
        Seq::empty()
    }
}

/// The handle as the line shows it.
pub open spec fn ref_text(node: NodeModel) -> Seq<char> {
    match node.ref_id {
        Some(r) => " [ref="@ + r + "]"@,
        None => Seq::empty(),
    }
}

/// The box of the node as the line shows it.
pub open spec fn rect_text(node: NodeModel) -> Seq<char> {
    match node.box_rect {
        Some(b) => box_text(b),
        None => Seq::empty(),
    }
}

/// The attributes of a host element as the line shows them.
pub open spec fn host_attrs_text(node: NodeModel) -> Seq<char> {
    if !node.is_component && node.html_attrs is Some {
        attrs_text(node.props, node.html_attrs->0)
    } else {
        Seq::empty()
    }
}

/// The line of a node behind its marker: name, accessible name, handle,
/// box, properties, attributes.
pub open spec fn fiber_body(node: NodeModel) -> Seq<char> {
    node.name + aria_text(node) + ref_text(node) + rect_text(node) + props_text(node.props)
        + host_attrs_text(node)
}

/// The line of a node at `depth`.
pub open spec fn fiber_line(depth: nat, node: NodeModel) -> Seq<char> {
    indent(depth) + "- "@ + fiber_body(node)
}

/// The lines of the nodes shown.
pub open spec fn fiber_lines_of(shown: Seq<Shown>) -> Seq<Seq<char>> {
    Seq::new(shown.len(), |i: int| fiber_line(shown[i].depth, shown[i].node))
}

/// The outline of the subtree at `node`, a line for each node shown.
pub open spec fn fiber_lines(node: NodeModel, depth: nat, opts: OptionsModel) -> Seq<Seq<char>> {
    fiber_lines_of(fiber_shown(node, depth, opts))
}

/// Some node among `nodes` has an interactive host in it exactly if one of
/// them, taken alone, has.
pub proof fn lemma_any_interactive(nodes: Seq<NodeModel>)
    ensures
        any_interactive(nodes) <==> exists|i: int|
            0 <= i < nodes.len() && (#[trigger] nodes[i]).has_interactive(),
    decreases nodes.len(),
{
    if nodes.len() > 0 {
        lemma_any_interactive(nodes.drop_last());
        if any_interactive(nodes.drop_last()) {
            let i = choose|i: int|
                0 <= i < nodes.drop_last().len() && (#[trigger] nodes.drop_last()[i]).has_interactive();
            assert(nodes[i].has_interactive());
        }
        if exists|i: int| 0 <= i < nodes.len() && (#[trigger] nodes[i]).has_interactive() {
            let i = choose|i: int| 0 <= i < nodes.len() && (#[trigger] nodes[i]).has_interactive();
            if i < nodes.len() - 1 {
                assert(nodes.drop_last()[i].has_interactive());
            }
        }
    }
}

/// Whether a tag is one that a user can act on.
pub fn is_interactive_tag(tag: &str) -> (r: bool)
    ensures
        r == interactive_tag(tag@),
{
    same_text(tag, "a") || same_text(tag, "button") || same_text(tag, "input") || same_text(
        tag,
        "select",
    ) || same_text(tag, "textarea") || same_text(tag, "details") || same_text(tag, "summary")
}

impl TreeNode {
    /// The children's models are the model's children.
    pub proof fn lemma_children(&self)
        ensures
            self@.children == models(self.children@),
    {
        assert(self@.children.len() == self.children@.len());
        assert forall|i: int| 0 <= i < self.children@.len() implies self@.children[i]
            == self.children@[i]@ by {}
        assert(self@.children =~= models(self.children@));
    }

    /// Whether the node is a host element with an interactive tag.
    fn is_interactive_host(&self) -> (r: bool)
        ensures
            r == self@.is_interactive_host(),
    {
        if self.is_component {
            return false;
        }
        match &self.tag {
            Some(tag) => is_interactive_tag(tag.as_str()),
            None => false,
        }
    }

    /// Whether the interactive filter passes over the node.
    fn passed_over(&self, opts: &SnapshotOptions) -> (r: bool)
        ensures
            r == self@.passed_over(opts@),
    {
        if !opts.interactive || self.is_component {
            return false;
        }
        match &self.tag {
            Some(tag) => !is_interactive_tag(tag.as_str()),
            None => {
                proof {
                    reveal_strlit("");
                    assert(""@ =~= Seq::<char>::empty());
                }
                !is_interactive_tag("")
            },
        }
    }
}

/// Whether the node or one of its descendants is an interactive host
/// element.
pub fn has_interactive_descendant(node: &TreeNode) -> (r: bool)
    ensures
        r == node@.has_interactive(),
    decreases node,
{
    if node.is_interactive_host() {
        return true;
    }
    proof {
        node.lemma_children();
    }
    let mut i: usize = 0;
    while i < node.children.len()
        invariant
            i <= node.children.len(),
            node@.children == models(node.children@),
            !any_interactive(node@.children.take(i as int)),
        decreases node.children.len() - i,
    {
        proof {
            let upto = node@.children.take(i + 1);
            assert(upto.drop_last() =~= node@.children.take(i as int));
            assert(upto.last() == node.children@[i as int]@);
        }
        if has_interactive_descendant(&node.children[i]) {
            proof {
                lemma_any_interactive(node@.children);
                assert(node@.children[i as int].has_interactive());
            }
            return true;
        }
        i += 1;
    }
    assert(node@.children.take(node.children.len() as int) =~= node@.children);
    false
}

/// Appends one property as the line shows it.
fn push_prop(line: &mut String, key: &str, value: &JsonScalar)
    ensures
        final(line)@ == old(line)@ + prop_text(key@, value@),
{
    line.append(" ");
    line.append(key);
    match value {
        JsonScalar::Text(s) => {
            line.append("=\"");
            line.append(s.as_str());
            line.append("\"");
        },
        JsonScalar::Number(n) => {
            line.append("={");
            line.append(n.as_str());
            line.append("}");
        },
        JsonScalar::Bool(b) => {
            line.append("={");
            if *b {
                line.append("true");
            } else {
                line.append("false");
            }
            line.append("}");
        },
        JsonScalar::Null => {
            line.append("={null}");
        },
        JsonScalar::Nested => {
            line.append("={...}");
        },
    }
    assert(line@ =~= old(line)@ + prop_text(key@, value@));
}

/// Appends the properties as the line shows them.
fn push_props(line: &mut String, props: &serde_json::Map<String, serde_json::Value>)
    ensures
        final(line)@ == old(line)@ + props_text(object_entries(*props)),
{
    let items = object_items(props);
    let ghost entries = object_entries(*props);
    let mut i: usize = 0;
    while i < items.len()
        invariant
            i <= items.len(),
            items_model(items@) == entries,
            line@ == old(line)@ + props_text(entries.take(i as int)),
        decreases items.len() - i,
    {
        proof {
            let upto = entries.take(i + 1);
            assert(upto.drop_last() =~= entries.take(i as int));
            assert(upto.last() == (items@[i as int].0@, items@[i as int].1@));
        }
        push_prop(line, items[i].0.as_str(), &items[i].1);
        i += 1;
        assert(line@ =~= old(line)@ + props_text(entries.take(i as int)));
    }
    assert(entries.take(items.len() as int) =~= entries);
}

/// Appends the attributes as the line shows them: the string values whose
/// keys are not among the properties.
fn push_attrs(
    line: &mut String,
    props: &serde_json::Map<String, serde_json::Value>,
    attrs: &serde_json::Map<String, serde_json::Value>,
)
    ensures
        final(line)@ == old(line)@ + attrs_text(object_entries(*props), object_entries(*attrs)),
{
    let items = object_items(attrs);
    let ghost shown = object_entries(*props);
    let ghost entries = object_entries(*attrs);
    let mut i: usize = 0;
    while i < items.len()
        invariant
            i <= items.len(),
            items_model(items@) == entries,
            shown == object_entries(*props),
            line@ == old(line)@ + attrs_text(shown, entries.take(i as int)),
        decreases items.len() - i,
    {
        proof {
            let upto = entries.take(i + 1);
            assert(upto.drop_last() =~= entries.take(i as int));
            assert(upto.last() == (items@[i as int].0@, items@[i as int].1@));
        }
        let ghost before = line@;
        match &items[i].1 {
            JsonScalar::Text(s) => {
                if !object_has_key(props, items[i].0.as_str()) {
                    line.append(" ");
                    line.append(items[i].0.as_str());
                    line.append("=\"");
                    line.append(s.as_str());
                    line.append("\"");
                }
            },
            _ => {},
        }
        assert(line@ =~= before + attr_text(shown, items@[i as int].0@, items@[i as int].1@));
        i += 1;
        assert(line@ =~= old(line)@ + attrs_text(shown, entries.take(i as int)));
    }
    assert(entries.take(items.len() as int) =~= entries);
}

/// Appends the box as the line shows it.
fn push_box(line: &mut String, b: &BoxRect)
    ensures
        final(line)@ == old(line)@ + box_text(*b),
{
    line.append(" [x=");
    push_signed_decimal(line, b.x);
    line.append(" y=");
    push_signed_decimal(line, b.y);
    line.append(" w=");
    push_signed_decimal(line, b.width);
    line.append(" h=");
    push_signed_decimal(line, b.height);
    line.append("]");
    assert(line@ =~= old(line)@ + box_text(*b));
}

/// The line of a node at `depth`.
pub fn fiber_line_of(node: &TreeNode, depth: usize) -> (line: String)
    ensures
        line@ == fiber_line(depth as nat, node@),
{
    let mut line = String::new();
    push_indent(&mut line, depth);
    line.append("- ");
    line.append(node.name.as_str());
    assert(line@ =~= indent(depth as nat) + "- "@ + node@.name);
    if !node.is_component {
        match &node.aria_name {
            Some(name) => {
                line.append(" \"");
                line.append(name.as_str());
                line.append("\"");
            },
            None => {},
        }
    }
    assert(line@ =~= indent(depth as nat) + "- "@ + node@.name + aria_text(node@));
    match &node.ref_id {
        Some(r) => {
            line.append(" [ref=");
            line.append(r.as_str());
            line.append("]");
        },
        None => {},
    }
    assert(line@ =~= indent(depth as nat) + "- "@ + node@.name + aria_text(node@) + ref_text(
        node@,
    ));
    match &node.box_rect {
        Some(b) => {
            push_box(&mut line, b);
        },
        None => {},
    }
    assert(line@ =~= indent(depth as nat) + "- "@ + node@.name + aria_text(node@) + ref_text(
        node@,
    ) + rect_text(node@));
    push_props(&mut line, &node.props);
    let ghost before = line@;
    if !node.is_component {
        match &node.html_attrs {
            Some(attrs) => {
                push_attrs(&mut line, &node.props, attrs);
            },
            None => {},
        }
    }
    assert(line@ =~= before + host_attrs_text(node@));
    assert(line@ =~= fiber_line(depth as nat, node@));
    line
}

/// Adding the last subtree's nodes to those of the subtrees before it.
pub proof fn lemma_shown_all_step(nodes: Seq<NodeModel>, i: int, depth: nat, opts: OptionsModel)
    requires
        0 <= i < nodes.len(),
    ensures
        fiber_shown_all(nodes.take(i + 1), depth, opts) == fiber_shown_all(
            nodes.take(i),
            depth,
            opts,
        ) + fiber_shown(nodes[i], depth, opts),
{
    let upto = nodes.take(i + 1);
    assert(upto.drop_last() =~= nodes.take(i));
    assert(upto.last() == nodes[i]);
}

/// Below the greatest depth nothing is shown, neither of a subtree nor of a
/// run of subtrees.
pub proof fn lemma_fiber_cut(nodes: Seq<NodeModel>, depth: nat, opts: OptionsModel)
    requires
        opts.cuts(depth),
    ensures
        fiber_shown_all(nodes, depth, opts).len() == 0,
    decreases nodes.len(),
{
    if nodes.len() > 0 {
        lemma_fiber_cut(nodes.drop_last(), depth, opts);
        assert(fiber_shown(nodes.last(), depth, opts).len() == 0);
    }
}

/// Writes the outlines of the subtrees at `nodes`, each root at `depth`, at
/// the end of `lines`.
fn format_fiber_nodes(
    nodes: &Vec<TreeNode>,
    depth: usize,
    opts: &SnapshotOptions,
    lines: &mut Vec<String>,
)
    ensures
        texts(final(lines)@) == texts(old(lines)@) + fiber_lines_of(
            fiber_shown_all(models(nodes@), depth as nat, opts@),
        ),
    decreases nodes,
{
    let ghost all = models(nodes@);
    let mut i: usize = 0;
    assert(texts(lines@) =~= texts(old(lines)@) + fiber_lines_of(
        fiber_shown_all(all.take(0), depth as nat, opts@),
    ));
    while i < nodes.len()
        invariant
            i <= nodes.len(),
            all == models(nodes@),
            texts(lines@) == texts(old(lines)@) + fiber_lines_of(
                fiber_shown_all(all.take(i as int), depth as nat, opts@),
            ),
        decreases nodes.len() - i,
    {
        proof {
            lemma_shown_all_step(all, i as int, depth as nat, opts@);
        }
        format_fiber_node(&nodes[i], depth, opts, lines);
        i += 1;
        assert(texts(lines@) =~= texts(old(lines)@) + fiber_lines_of(
            fiber_shown_all(all.take(i as int), depth as nat, opts@),
        ));
    }
    assert(all.take(nodes.len() as int) =~= all);
}

/// Writes the outline of the subtree at `node`, with `node` at `depth`, at
/// the end of `lines`.
pub fn format_fiber_node(
    node: &TreeNode,
    depth: usize,
    opts: &SnapshotOptions,
    lines: &mut Vec<String>,
)
    ensures
        texts(final(lines)@) == texts(old(lines)@) + fiber_lines(node@, depth as nat, opts@),
    decreases node,
{
    if opts.cuts(depth) {
        assert(texts(lines@) =~= texts(old(lines)@) + fiber_lines(node@, depth as nat, opts@));
        return;
    }
    proof {
        node.lemma_children();
    }
    if node.passed_over(opts) {
        format_fiber_nodes(&node.children, depth, opts, lines);
        return;
    }
    if opts.compact && node.is_component && !has_interactive_descendant(node) {
        assert(texts(lines@) =~= texts(old(lines)@) + fiber_lines(node@, depth as nat, opts@));
        return;
    }
    let line = fiber_line_of(node, depth);
    lines.push(line);
    let ghost own = seq![Shown { depth: depth as nat, node: node@ }];
    let ghost with_own = texts(lines@);
    assert(with_own =~= texts(old(lines)@) + fiber_lines_of(own));
    if depth < usize::MAX {
        format_fiber_nodes(&node.children, depth + 1, opts, lines);
    } else {
        proof {
            lemma_fiber_cut(node@.children, (depth + 1) as nat, opts@);
        }
    }
    let ghost below = fiber_shown_all(node@.children, (depth + 1) as nat, opts@);
    assert(texts(lines@) =~= with_own + fiber_lines_of(below));
    assert(texts(lines@) =~= texts(old(lines)@) + fiber_lines_of(own + below));
}

/// The nodes of the subtree at `node` whose names pass the filter, in the
/// order in which a walk from the top meets them. A match inside a match
/// is listed again, behind the match that holds it.
pub open spec fn filtered_roots(node: NodeModel, filter: Seq<char>) -> Seq<NodeModel>
    decreases node,
{
    (if name_matches(node.name, filter) {
        seq![node]
    } else {
        Seq::empty()
    }) + filtered_roots_all(node.children, filter)
}

/// The matching nodes of the subtrees at `nodes`, one subtree after the
/// other.
pub open spec fn filtered_roots_all(nodes: Seq<NodeModel>, filter: Seq<char>) -> Seq<NodeModel>
    decreases nodes,
{
    if nodes.len() == 0 {
        Seq::empty()
    } else {
        filtered_roots_all(nodes.drop_last(), filter) + filtered_roots(nodes.last(), filter)
    }
}

impl OptionsModel {
    /// The filter, or the empty text where there is none.
    pub open spec fn filter_text(self) -> Seq<char> {
        match self.filter {
            Some(f) => f,
            None => Seq::empty(),
        }
    }
}

/// The outline under a filter: each matching node of the subtree at `node`
/// drawn as a root of its own, at depth 0.
pub open spec fn filtered_lines(node: NodeModel, opts: OptionsModel) -> Seq<Seq<char>> {
    fiber_lines_of(fiber_shown_all(filtered_roots(node, opts.filter_text()), 0, opts))
}

/// The nodes shown of two runs of subtrees are those of the first run, then
/// those of the second.
pub proof fn lemma_shown_all_concat(
    a: Seq<NodeModel>,
    b: Seq<NodeModel>,
    depth: nat,
    opts: OptionsModel,
)
    ensures
        fiber_shown_all(a + b, depth, opts) == fiber_shown_all(a, depth, opts) + fiber_shown_all(
            b,
            depth,
            opts,
        ),
    decreases b.len(),
{
    if b.len() == 0 {
        assert(a + b =~= a);
        assert(fiber_shown_all(a, depth, opts) + fiber_shown_all(b, depth, opts)
            =~= fiber_shown_all(a, depth, opts));
    } else {
        lemma_shown_all_concat(a, b.drop_last(), depth, opts);
        assert((a + b).drop_last() =~= a + b.drop_last());
        assert((a + b).last() == b.last());
        assert(fiber_shown_all(a + b, depth, opts) =~= fiber_shown_all(a, depth, opts)
            + fiber_shown_all(b, depth, opts));
    }
}

/// The nodes shown of one subtree taken as a run of its own.
pub proof fn lemma_shown_all_single(node: NodeModel, depth: nat, opts: OptionsModel)
    ensures
        fiber_shown_all(seq![node], depth, opts) == fiber_shown(node, depth, opts),
{
    let one = seq![node];
    assert(one.drop_last() =~= Seq::<NodeModel>::empty());
    assert(one.last() == node);
    assert(fiber_shown_all(one.drop_last(), depth, opts) =~= Seq::<Shown>::empty());
    assert(fiber_shown_all(one, depth, opts) =~= fiber_shown(node, depth, opts));
}

/// Walks the subtree at `node` and writes, at the end of `lines`, the
/// outline of each node whose name passes the filter, as a root at depth 0.
pub fn collect_filtered_subtrees(node: &TreeNode, opts: &SnapshotOptions, lines: &mut Vec<String>)
    ensures
        texts(final(lines)@) == texts(old(lines)@) + filtered_lines(node@, opts@),
    decreases node,
{
    let ghost filter = opts@.filter_text();
    let matches = match &opts.filter {
        Some(f) => name_matches_filter(node.name.as_str(), f.as_str()),
        None => {
            proof {
                reveal_strlit("");
                assert(""@ =~= Seq::<char>::empty());
            }
            name_matches_filter(node.name.as_str(), "")
        },
    };
    let ghost own: Seq<NodeModel> = if matches {
        seq![node@]
    } else {
        Seq::empty()
    };
    if matches {
        format_fiber_node(node, 0, opts, lines);
        proof {
            lemma_shown_all_single(node@, 0, opts@);
        }
    }
    assert(texts(lines@) =~= texts(old(lines)@) + fiber_lines_of(fiber_shown_all(own, 0, opts@)));
    proof {
        node.lemma_children();
    }
    let ghost kids = node@.children;
    let mut i: usize = 0;
    while i < node.children.len()
        invariant
            i <= node.children.len(),
            kids == node@.children,
            kids == models(node.children@),
            filter == opts@.filter_text(),
            texts(lines@) == texts(old(lines)@) + fiber_lines_of(
                fiber_shown_all(own + filtered_roots_all(kids.take(i as int), filter), 0, opts@),
            ),
        decreases node.children.len() - i,
    {
        proof {
            let upto = kids.take(i + 1);
            assert(upto.drop_last() =~= kids.take(i as int));
            assert(upto.last() == kids[i as int]);
            let found = own + filtered_roots_all(kids.take(i as int), filter);
            let more = filtered_roots(kids[i as int], filter);
            assert(own + filtered_roots_all(upto, filter) =~= found + more);
            lemma_shown_all_concat(found, more, 0, opts@);
        }
        collect_filtered_subtrees(&node.children[i], opts, lines);
        i += 1;
        assert(texts(lines@) =~= texts(old(lines)@) + fiber_lines_of(
            fiber_shown_all(own + filtered_roots_all(kids.take(i as int), filter), 0, opts@),
        ));
    }
    assert(kids.take(node.children.len() as int) =~= kids);
}

} // verus!
