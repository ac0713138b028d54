//! The document tree: elements, text nodes and fragments, the collapse of
//! bare wrappers, and the outlines drawn of the tree.
use vstd::prelude::*;
use crate::fiber::text_of;
use crate::json::{
    empty_object, items_model, object_entries, object_items, Entries, JsonScalar, ScalarModel,
};
use crate::options::{OptionsModel, SnapshotOptions};
use crate::text::{chars_of, indent, occurs_at, push_indent, same_text, stands_at, texts};

verus! {

/// A node of the document tree. With a tag it is an element; without a tag
/// and with a text it is a text node; without both it is a fragment, which
/// stands for its children.
pub struct DomNode {
    pub tag: Option<String>,
    pub text: Option<String>,
    /// The attributes, in the order supplied.
    pub attrs: serde_json::Map<String, serde_json::Value>,
    pub children: Vec<DomNode>,
}

/// The mathematical model of a [`DomNode`].
pub struct DomModel {
    pub tag: Option<Seq<char>>,
    pub text: Option<Seq<char>>,
    pub attrs: Entries,
    pub children: Seq<DomModel>,
}

/// The model of a node: its fields by their views, its children by their
/// models.
pub open spec fn dom_model(node: DomNode) -> DomModel
    decreases node,
{
    DomModel {
        tag: text_of(node.tag),
        text: text_of(node.text),
        attrs: object_entries(node.attrs),
        children: Seq::new(
            node.children.len() as nat,
            |i: int|
                if 0 <= i < node.children.len() {
                    dom_model(node.children[i])
                } else {
                    arbitrary()
                },
        ),
    }
}

impl View for DomNode {
    type V = DomModel;

    open spec fn view(&self) -> DomModel {
        dom_model(*self)
    }
}

/// The models of a list of nodes.
pub open spec fn dom_models(nodes: Seq<DomNode>) -> Seq<DomModel> {
    Seq::new(nodes.len(), |i: int| nodes[i]@)
}

/// The model of an optional node.
pub open spec fn dom_model_of(node: Option<DomNode>) -> Option<DomModel> {
    match node {
        Some(n) => Some(n@),
        None => None,
    }
}

/// The tags of elements that only group others.
pub open spec fn structural_tag(tag: Seq<char>) -> bool {
    tag == "div"@ || tag == "span"@ || tag == "p"@ || tag == "section"@ || tag == "main"@ || tag
        == "article"@ || tag == "header"@ || tag == "footer"@ || tag == "nav"@ || tag == "aside"@
        || tag == "figure"@ || tag == "figcaption"@ || tag == "ul"@ || tag == "ol"@ || tag == "li"@
        || tag == "dl"@ || tag == "dt"@ || tag == "dd"@ || tag == "table"@ || tag == "tbody"@
        || tag == "thead"@ || tag == "tfoot"@ || tag == "tr"@ || tag == "td"@ || tag == "th"@
        || tag == "center"@ || tag == "fieldset"@ || tag == "form"@
}

/// An attribute that says something of its element: any but the `aria-`
/// ones and `role`, `tabindex`, `hidden`, `dir`, `lang`.
pub open spec fn meaningful_attr(key: Seq<char>) -> bool {
    !(occurs_at(key, "aria-"@, 0) || key == "role"@ || key == "tabindex"@ || key == "hidden"@
        || key == "dir"@ || key == "lang"@)
}

/// Some attribute among the entries is meaningful.
pub open spec fn has_meaningful(attrs: Entries) -> bool {
    exists|i: int| 0 <= i < attrs.len() && meaningful_attr(#[trigger] attrs[i].0)
}

/// A white-space character.
pub open spec fn is_space(c: char) -> bool {
    ('\u{9}' <= c && c <= '\u{d}') || c == ' ' || c == '\u{85}' || c == '\u{a0}' || c
        == '\u{1680}' || ('\u{2000}' <= c && c <= '\u{200a}') || c == '\u{2028}' || c
        == '\u{2029}' || c == '\u{202f}' || c == '\u{205f}' || c == '\u{3000}'
}

/// A text of white space only; the empty text is one.
pub open spec fn is_blank(text: Seq<char>) -> bool {
    forall|i: int| 0 <= i < text.len() ==> is_space(#[trigger] text[i])
}

impl DomModel {
    /// Neither tag nor text: the node stands for its children.
    pub open spec fn is_fragment(self) -> bool {
        self.tag is None && self.text is None
    }

    /// No tag, but a text.
    pub open spec fn is_text(self) -> bool {
        self.tag is None && self.text is Some
    }

    /// No meaningful attribute and no text.
    pub open spec fn is_plain(self) -> bool {
        !has_meaningful(self.attrs) && self.text is None
    }

    /// An element that only groups others and says nothing of its own.
    pub open spec fn is_bare_wrapper(self) -> bool {
        self.tag is Some && structural_tag(self.tag->0) && self.is_plain()
    }
}

/// A fragment that holds the given children.
pub open spec fn fragment_of(children: Seq<DomModel>) -> DomModel {
    DomModel { tag: None, text: None, attrs: Seq::empty(), children }
}

/// The nodes with every fragment replaced, in place, by its children, and
/// the fragments among those in turn.
pub open spec fn flattened(nodes: Seq<DomModel>) -> Seq<DomModel>
    decreases nodes,
{
    if nodes.len() == 0 {
        Seq::empty()
    } else {
        flattened(nodes.drop_last()) + (if nodes.last().is_fragment() {
            flattened(nodes.last().children)
        } else {
            seq![nodes.last()]
        })
    }
}

/// The collapse of the subtree at `node`, from the leaves up.
///
/// A text node stays as it is, unless its text is blank: then it goes. The
/// children of any other node are collapsed first, and those that go are
/// left out. A bare wrapper, or a fragment, goes if no child is left, and
/// else becomes a fragment that holds the children left. Any other element
/// keeps tag, text and attributes, and takes the children left with the
/// fragments among them flattened.
pub open spec fn collapsed(node: DomModel) -> Option<DomModel>
    decreases node,
{
    if node.is_text() {
        if is_blank(node.text->0) {
            None
        } else {
            Some(node)
        }
    } else {
        let kept = collapsed_all(node.children);
        if node.is_fragment() || node.is_bare_wrapper() {
            if kept.len() == 0 {
                None
            } else {
                Some(fragment_of(kept))
            }
        } else {
            Some(
                DomModel {
                    tag: node.tag,
                    text: node.text,
                    attrs: node.attrs,
                    children: flattened(kept),
                },
            )
        }
    }
}

/// The collapses of the subtrees at `nodes`, those that go left out.
pub open spec fn collapsed_all(nodes: Seq<DomModel>) -> Seq<DomModel>
    decreases nodes,
{
    if nodes.len() == 0 {
        Seq::empty()
    } else {
        collapsed_all(nodes.drop_last()) + (match collapsed(nodes.last()) {
            Some(n) => seq![n],
            None => Seq::empty(),
        })
    }
}

/// Whether a tag is one of an element that only groups others.
pub fn is_structural_tag(tag: &str) -> (r: bool)
    ensures
        r == structural_tag(tag@),
{
    same_text(tag, "div") || same_text(tag, "span") || same_text(tag, "p") || same_text(
        tag,
        "section",
    ) || same_text(tag, "main") || same_text(tag, "article") || same_text(tag, "header")
        || same_text(tag, "footer") || same_text(tag, "nav") || same_text(tag, "aside")
        || same_text(tag, "figure") || same_text(tag, "figcaption") || same_text(tag, "ul")
        || same_text(tag, "ol") || same_text(tag, "li") || same_text(tag, "dl") || same_text(
        tag,
        "dt",
    ) || same_text(tag, "dd") || same_text(tag, "table") || same_text(tag, "tbody") || same_text(
        tag,
        "thead",
    ) || same_text(tag, "tfoot") || same_text(tag, "tr") || same_text(tag, "td") || same_text(
        tag,
        "th",
    ) || same_text(tag, "center") || same_text(tag, "fieldset") || same_text(tag, "form")
}

/// Whether an attribute says something of its element.
pub fn is_meaningful_attr(key: &str) -> (r: bool)
    ensures
        r == meaningful_attr(key@),
{
    let k = chars_of(key);
    let prefix = chars_of("aria-");
    !(stands_at(&k, &prefix, 0) || same_text(key, "role") || same_text(key, "tabindex")
        || same_text(key, "hidden") || same_text(key, "dir") || same_text(key, "lang"))
}

/// Whether a character is white space.
pub fn is_space_char(c: char) -> (r: bool)
    ensures
        r == is_space(c),
{
    ('\u{9}' <= c && c <= '\u{d}') || c == ' ' || c == '\u{85}' || c == '\u{a0}' || c
        == '\u{1680}' || ('\u{2000}' <= c && c <= '\u{200a}') || c == '\u{2028}' || c
        == '\u{2029}' || c == '\u{202f}' || c == '\u{205f}' || c == '\u{3000}'
}

/// Whether a text holds white space only.
pub fn is_blank_text(text: &str) -> (r: bool)
    ensures
        r == is_blank(text@),
{
    let t = chars_of(text);
    let mut k: usize = 0;
    while k < t.len()
        invariant
            k <= t.len(),
            t@ == text@,
            forall|j: int| 0 <= j < k ==> is_space(#[trigger] t@[j]),
        decreases t.len() - k,
    {
        if !is_space_char(t[k]) {
            return false;
        }
        k += 1;
    }
    true
}

/// Whether some attribute of the object is meaningful.
fn any_meaningful(attrs: &serde_json::Map<String, serde_json::Value>) -> (r: bool)
    ensures
        r == has_meaningful(object_entries(*attrs)),
{
    let items = object_items(attrs);
    let ghost entries = object_entries(*attrs);
    let mut i: usize = 0;
    while i < items.len()
        invariant
            i <= items.len(),
            items_model(items@) == entries,
            entries == object_entries(*attrs),
            forall|j: int| 0 <= j < i ==> !meaningful_attr(#[trigger] entries[j].0),
        decreases items.len() - i,
    {
        assert(entries[i as int].0 == items@[i as int].0@);
        if is_meaningful_attr(items[i].0.as_str()) {
            assert(meaningful_attr(entries[i as int].0));
            return true;
        }
        i += 1;
    }
    false
}

impl DomNode {
    /// The children's models are the model's children.
    pub proof fn lemma_children(&self)
        ensures
            self@.children == dom_models(self.children@),
    {
        assert(self@.children =~= dom_models(self.children@));
    }

    /// Whether the node has neither tag nor text.
    pub fn is_fragment(&self) -> (r: bool)
        ensures
            r == self@.is_fragment(),
    {
        self.tag.is_none() && self.text.is_none()
    }

    /// Whether the node has no tag, but a text.
    pub fn is_text(&self) -> (r: bool)
        ensures
            r == self@.is_text(),
    {
        self.tag.is_none() && self.text.is_some()
    }
}

/// Replaces every fragment among the nodes, in place, by its children, and
/// the fragments among those in turn.
pub fn flatten_fragments(nodes: Vec<DomNode>) -> (out: Vec<DomNode>)
    ensures
        dom_models(out@) == flattened(dom_models(nodes@)),
    decreases nodes,
{
    let ghost all = dom_models(nodes@);
    let mut out: Vec<DomNode> = Vec::new();
    for node in it: nodes.into_iter()
        invariant
            it.seq() == nodes@,
            all == dom_models(nodes@),
            dom_models(out@) == flattened(all.take(it.index() as int)),
    {
        let ghost i = it.index() as int;
        let ghost before = dom_models(out@);
        proof {
            let upto = all.take(i + 1);
            assert(upto.drop_last() =~= all.take(i));
            assert(upto.last() == node@);
            node.lemma_children();
        }
        if node.is_fragment() {
            let mut inner = flatten_fragments(node.children);
            let ghost added = dom_models(inner@);
            out.append(&mut inner);
            assert(dom_models(out@) =~= before + added);
        } else {
            out.push(node);
            assert(dom_models(out@) =~= before + seq![node@]);
        }
    }
    assert(all.take(nodes@.len() as int) =~= all);
    out
}

/// Adding the collapse of the last subtree to those of the subtrees before.
pub proof fn lemma_collapsed_all_step(nodes: Seq<DomModel>, i: int)
    requires
        0 <= i < nodes.len(),
    ensures
        collapsed_all(nodes.take(i + 1)) == collapsed_all(nodes.take(i)) + (match collapsed(
            nodes[i],
        ) {
            Some(n) => seq![n],
            None => Seq::empty(),
        }),
{
    let upto = nodes.take(i + 1);
    assert(upto.drop_last() =~= nodes.take(i));
    assert(upto.last() == nodes[i]);
}

/// Collapses the subtree at `node`, from the leaves up: blank text nodes
/// and empty bare wrappers go, a bare wrapper with children becomes a
/// fragment, and every other element takes the children left, with the
/// fragments among them flattened. `None` where the node itself goes.
pub fn collapse_dom_tree(node: DomNode) -> (r: Option<DomNode>)
    ensures
        dom_model_of(r) == collapsed(node@),
    decreases node,
{
    let ghost model = node@;
    proof {
        node.lemma_children();
    }
    if node.is_text() {
        let blank = match &node.text {
            Some(t) => is_blank_text(t.as_str()),
            None => false,
        };
        if blank {
            return None;
        }
        return Some(node);
    }
    let bare = match &node.tag {
        Some(tag) => is_structural_tag(tag.as_str()) && node.text.is_none() && !any_meaningful(
            &node.attrs,
        ),
        None => false,
    };
    let wrapper = node.is_fragment() || bare;
    assert(wrapper == (model.is_fragment() || model.is_bare_wrapper()));
    let ghost kids = model.children;
    let mut kept: Vec<DomNode> = Vec::new();
    for child in it: node.children.into_iter()
        invariant
            it.seq() == node.children@,
            kids == dom_models(node.children@),
            dom_models(kept@) == collapsed_all(kids.take(it.index() as int)),
    {
        let ghost i = it.index() as int;
        let ghost before = dom_models(kept@);
        proof {
            lemma_collapsed_all_step(kids, i);
            assert(kids[i] == child@);
        }
        match collapse_dom_tree(child) {
            Some(c) => {
                kept.push(c);
                assert(dom_models(kept@) =~= before + seq![c@]);
            },
            None => {
                assert(dom_models(kept@) =~= before + Seq::<DomModel>::empty());
            },
        }
    }
    assert(kids.take(kids.len() as int) =~= kids);
    if wrapper {
        if kept.len() == 0 {
            return None;
        }
        let out = DomNode { tag: None, text: None, attrs: empty_object(), children: kept };
        proof {
            out.lemma_children();
            assert(out@ =~= fragment_of(dom_models(kept@)));
        }
        return Some(out);
    }
    let flat = flatten_fragments(kept);
    let out = DomNode { tag: node.tag, text: node.text, attrs: node.attrs, children: flat };
    proof {
        out.lemma_children();
    }
    Some(out)
}

/// A node that an outline of the document shows, with its depth.
pub struct DomShown {
    pub depth: nat,
    pub node: DomModel,
}

/// The nodes that the full outline shows of the subtree at `node`: every
/// node down to the greatest depth.
pub open spec fn dom_shown(node: DomModel, depth: nat, opts: OptionsModel) -> Seq<DomShown>
    decreases node,
{
    if opts.cuts(depth) {
        Seq::empty()
    } else {
        seq![DomShown { depth, node }] + dom_shown_all(node.children, depth + 1, opts)
    }
}

/// The nodes that the full outline shows of the subtrees at `nodes`.
pub open spec fn dom_shown_all(nodes: Seq<DomModel>, depth: nat, opts: OptionsModel) -> Seq<
    DomShown,
>
    decreases nodes,
{
    if nodes.len() == 0 {
        Seq::empty()
    } else {
        dom_shown_all(nodes.drop_last(), depth, opts) + dom_shown(nodes.last(), depth, opts)
    }
}

impl DomModel {
    /// The tag, or the empty text where there is none.
    pub open spec fn tag_text(self) -> Seq<char> {
        match self.tag {
            Some(t) => t,
            None => Seq::empty(),
        }
    }

    /// The node has one child, a text node: the collapsed outline writes
    /// that text on the node's own line.
    pub open spec fn inlines_text(self) -> bool {
        self.children.len() == 1 && self.children[0].is_text()
    }
}

/// The nodes that the collapsed outline shows of the subtree at `node`: as
/// the full outline, but for a single text child, which gets no line.
pub open spec fn mini_shown(node: DomModel, depth: nat, opts: OptionsModel) -> Seq<DomShown>
    decreases node,
{
    if opts.cuts(depth) {
        Seq::empty()
    } else if node.inlines_text() {
        seq![DomShown { depth, node }]
    } else {
        seq![DomShown { depth, node }] + mini_shown_all(node.children, depth + 1, opts)
    }
}

/// The nodes that the collapsed outline shows of the subtrees at `nodes`.
pub open spec fn mini_shown_all(nodes: Seq<DomModel>, depth: nat, opts: OptionsModel) -> Seq<
    DomShown,
>
    decreases nodes,
{
    if nodes.len() == 0 {
        Seq::empty()
    } else {
        mini_shown_all(nodes.drop_last(), depth, opts) + mini_shown(nodes.last(), depth, opts)
    }
}

/// One attribute as the line shows it: a string value; nothing else.
pub open spec fn string_attr_text(key: Seq<char>, value: ScalarModel) -> Seq<char> {
    match value {
        ScalarModel::Text(s) => " "@ + key + "=\""@ + s + "\""@,
        _ => Seq::empty(),
    }
}

/// The string attributes as the line shows them, in their order.
pub open spec fn string_attrs_text(attrs: Entries) -> Seq<char>
    decreases attrs.len(),
{
    if attrs.len() == 0 {
        Seq::empty()
    } else {
        string_attrs_text(attrs.drop_last()) + string_attr_text(attrs.last().0, attrs.last().1)
    }
}

/// The line of a node behind its marker: the quoted text of a text node,
/// else the tag and the string attributes.
pub open spec fn dom_body(node: DomModel) -> Seq<char> {
    if node.is_text() {
        "\""@ + node.text->0 + "\""@
    } else {
        node.tag_text() + string_attrs_text(node.attrs)
    }
}

/// The line of a node at `depth` in the full outline.
pub open spec fn dom_line(depth: nat, node: DomModel) -> Seq<char> {
    indent(depth) + "- "@ + dom_body(node)
}

/// The text of a single text child as the node's line shows it.
pub open spec fn inline_text(node: DomModel) -> Seq<char> {
    if node.inlines_text() {
        " \""@ + node.children[0].text->0 + "\""@
    } else {
        Seq::empty()
    }
}

/// The line of a node at `depth` in the collapsed outline.
pub open spec fn mini_line(depth: nat, node: DomModel) -> Seq<char> {
    dom_line(depth, node) + inline_text(node)
}

/// The lines of the nodes shown in the full outline.
pub open spec fn dom_lines_of(shown: Seq<DomShown>) -> Seq<Seq<char>> {
    Seq::new(shown.len(), |i: int| dom_line(shown[i].depth, shown[i].node))
}

/// The lines of the nodes shown in the collapsed outline.
pub open spec fn mini_lines_of(shown: Seq<DomShown>) -> Seq<Seq<char>> {
    Seq::new(shown.len(), |i: int| mini_line(shown[i].depth, shown[i].node))
}

/// The full outline of the subtree at `node`.
pub open spec fn dom_lines(node: DomModel, depth: nat, opts: OptionsModel) -> Seq<Seq<char>> {
    dom_lines_of(dom_shown(node, depth, opts))
}

/// The collapsed outline of the subtree at `node`.
pub open spec fn mini_lines(node: DomModel, depth: nat, opts: OptionsModel) -> Seq<Seq<char>> {
    mini_lines_of(mini_shown(node, depth, opts))
}

/// Adding the last subtree's nodes to those of the subtrees before it.
pub proof fn lemma_dom_shown_all_step(nodes: Seq<DomModel>, i: int, depth: nat, opts: OptionsModel)
    requires
        0 <= i < nodes.len(),
    ensures
        dom_shown_all(nodes.take(i + 1), depth, opts) == dom_shown_all(nodes.take(i), depth, opts)
            + dom_shown(nodes[i], depth, opts),
        mini_shown_all(nodes.take(i + 1), depth, opts) == mini_shown_all(
            nodes.take(i),
            depth,
            opts,
        ) + mini_shown(nodes[i], depth, opts),
{
    let upto = nodes.take(i + 1);
    assert(upto.drop_last() =~= nodes.take(i));
    assert(upto.last() == nodes[i]);
}

/// Appends the string attributes as the line shows them.
fn push_string_attrs(line: &mut String, attrs: &serde_json::Map<String, serde_json::Value>)
    ensures
        final(line)@ == old(line)@ + string_attrs_text(object_entries(*attrs)),
{
    let items = object_items(attrs);
    let ghost entries = object_entries(*attrs);
    let mut i: usize = 0;
    while i < items.len()
        invariant
            i <= items.len(),
            items_model(items@) == entries,
            line@ == old(line)@ + string_attrs_text(entries.take(i as int)),
        decreases items.len() - i,
    {
        proof {
            let upto = entries.take(i + 1);
            assert(upto.drop_last() =~= entries.take(i as int));
            assert(upto.last() == (items@[i as int].0@, items@[i as int].1@));
        }
        let ghost before = line@;
        match &items[i].1 {
            JsonScalar::Text(s) => {
                line.append(" ");
                line.append(items[i].0.as_str());
                line.append("=\"");
                line.append(s.as_str());
                line.append("\"");
            },
            _ => {},
        }
        assert(line@ =~= before + string_attr_text(items@[i as int].0@, items@[i as int].1@));
        i += 1;
        assert(line@ =~= old(line)@ + string_attrs_text(entries.take(i as int)));
    }
    assert(entries.take(items.len() as int) =~= entries);
}

/// The line of a node at `depth` in the full outline.
pub fn dom_line_of(node: &DomNode, depth: usize) -> (line: String)
    ensures
        line@ == dom_line(depth as nat, node@),
{
    let mut line = String::new();
    push_indent(&mut line, depth);
    line.append("- ");
    match &node.tag {
        Some(tag) => {
            line.append(tag.as_str());
            push_string_attrs(&mut line, &node.attrs);
        },
        None => {
            match &node.text {
                Some(text) => {
                    line.append("\"");
                    line.append(text.as_str());
                    line.append("\"");
                },
                None => {
                    push_string_attrs(&mut line, &node.attrs);
                },
            }
        },
    }
    assert(line@ =~= dom_line(depth as nat, node@));
    line
}

/// The line of a node at `depth` in the collapsed outline.
pub fn mini_line_of(node: &DomNode, depth: usize) -> (line: String)
    ensures
        line@ == mini_line(depth as nat, node@),
{
    let mut line = dom_line_of(node, depth);
    proof {
        node.lemma_children();
    }
    if node.children.len() == 1 && node.children[0].is_text() {
        match &node.children[0].text {
            Some(text) => {
                line.append(" \"");
                line.append(text.as_str());
                line.append("\"");
            },
            None => {},
        }
    }
    assert(line@ =~= mini_line(depth as nat, node@));
    line
}

/// Below the greatest depth neither outline shows anything.
pub proof fn lemma_dom_cut(nodes: Seq<DomModel>, depth: nat, opts: OptionsModel)
    requires
        opts.cuts(depth),
    ensures
        dom_shown_all(nodes, depth, opts).len() == 0,
        mini_shown_all(nodes, depth, opts).len() == 0,
    decreases nodes.len(),
{
    if nodes.len() > 0 {
        lemma_dom_cut(nodes.drop_last(), depth, opts);
        assert(dom_shown(nodes.last(), depth, opts).len() == 0);
        assert(mini_shown(nodes.last(), depth, opts).len() == 0);
    }
}

/// Writes the full outlines of the subtrees at `nodes`, each root at
/// `depth`, at the end of `lines`.
fn format_dom_nodes(
    nodes: &Vec<DomNode>,
    depth: usize,
    opts: &SnapshotOptions,
    lines: &mut Vec<String>,
)
    ensures
        texts(final(lines)@) == texts(old(lines)@) + dom_lines_of(
            dom_shown_all(dom_models(nodes@), depth as nat, opts@),
        ),
    decreases nodes,
{
    let ghost all = dom_models(nodes@);
    let mut i: usize = 0;
    assert(texts(lines@) =~= texts(old(lines)@) + dom_lines_of(
        dom_shown_all(all.take(0), depth as nat, opts@),
    ));
    while i < nodes.len()
        invariant
            i <= nodes.len(),
            all == dom_models(nodes@),
            texts(lines@) == texts(old(lines)@) + dom_lines_of(
                dom_shown_all(all.take(i as int), depth as nat, opts@),
            ),
        decreases nodes.len() - i,
    {
        proof {
            lemma_dom_shown_all_step(all, i as int, depth as nat, opts@);
        }
        format_dom_node(&nodes[i], depth, opts, lines);
        i += 1;
        assert(texts(lines@) =~= texts(old(lines)@) + dom_lines_of(
            dom_shown_all(all.take(i as int), depth as nat, opts@),
        ));
    }
    assert(all.take(nodes.len() as int) =~= all);
}

/// Writes the full outline of the subtree at `node`, with `node` at
/// `depth`, at the end of `lines`.
pub fn format_dom_node(
    node: &DomNode,
    depth: usize,
    opts: &SnapshotOptions,
    lines: &mut Vec<String>,
)
    ensures
        texts(final(lines)@) == texts(old(lines)@) + dom_lines(node@, depth as nat, opts@),
    decreases node,
{
    if opts.cuts(depth) {
        assert(texts(lines@) =~= texts(old(lines)@) + dom_lines(node@, depth as nat, opts@));
        return;
    }
    proof {
        node.lemma_children();
    }
    let line = dom_line_of(node, depth);
    lines.push(line);
    let ghost own = seq![DomShown { depth: depth as nat, node: node@ }];
    let ghost with_own = texts(lines@);
    assert(with_own =~= texts(old(lines)@) + dom_lines_of(own));
    if depth < usize::MAX {
        format_dom_nodes(&node.children, depth + 1, opts, lines);
    } else {
        proof {
            lemma_dom_cut(node@.children, (depth + 1) as nat, opts@);
        }
    }
    let ghost below = dom_shown_all(node@.children, (depth + 1) as nat, opts@);
    assert(texts(lines@) =~= with_own + dom_lines_of(below));
    assert(texts(lines@) =~= texts(old(lines)@) + dom_lines_of(own + below));
}

/// Writes the collapsed outlines of the subtrees at `nodes`, each root at
/// `depth`, at the end of `lines`.
pub(crate) fn format_mini_nodes(
    nodes: &Vec<DomNode>,
    depth: usize,
    opts: &SnapshotOptions,
    lines: &mut Vec<String>,
)
    ensures
        texts(final(lines)@) == texts(old(lines)@) + mini_lines_of(
            mini_shown_all(dom_models(nodes@), depth as nat, opts@),
        ),
    decreases nodes,
{
    let ghost all = dom_models(nodes@);
    let mut i: usize = 0;
    assert(texts(lines@) =~= texts(old(lines)@) + mini_lines_of(
        mini_shown_all(all.take(0), depth as nat, opts@),
    ));
    while i < nodes.len()
        invariant
            i <= nodes.len(),
            all == dom_models(nodes@),
            texts(lines@) == texts(old(lines)@) + mini_lines_of(
                mini_shown_all(all.take(i as int), depth as nat, opts@),
            ),
        decreases nodes.len() - i,
    {
        proof {
            lemma_dom_shown_all_step(all, i as int, depth as nat, opts@);
        }
        format_mini_node(&nodes[i], depth, opts, lines);
        i += 1;
        assert(texts(lines@) =~= texts(old(lines)@) + mini_lines_of(
            mini_shown_all(all.take(i as int), depth as nat, opts@),
        ));
    }
    assert(all.take(nodes.len() as int) =~= all);
}

/// Writes the collapsed outline of the subtree at `node`, with `node` at
/// `depth`, at the end of `lines`.
pub fn format_mini_node(
    node: &DomNode,
    depth: usize,
    opts: &SnapshotOptions,
    lines: &mut Vec<String>,
)
    ensures
        texts(final(lines)@) == texts(old(lines)@) + mini_lines(node@, depth as nat, opts@),
    decreases node,
{
    if opts.cuts(depth) {
        assert(texts(lines@) =~= texts(old(lines)@) + mini_lines(node@, depth as nat, opts@));
        return;
    }
    proof {
        node.lemma_children();
    }
    let line = mini_line_of(node, depth);
    lines.push(line);
    let ghost own = seq![DomShown { depth: depth as nat, node: node@ }];
    let ghost with_own = texts(lines@);
    assert(with_own =~= texts(old(lines)@) + mini_lines_of(own));
    if node.children.len() == 1 && node.children[0].is_text() {
        return;
    }
    if depth < usize::MAX {
        format_mini_nodes(&node.children, depth + 1, opts, lines);
    } else {
        proof {
            lemma_dom_cut(node@.children, (depth + 1) as nat, opts@);
        }
    }
    let ghost below = mini_shown_all(node@.children, (depth + 1) as nat, opts@);
    assert(texts(lines@) =~= with_own + mini_lines_of(below));
    assert(texts(lines@) =~= texts(old(lines)@) + mini_lines_of(own + below));
}

} // verus!
