use browser_cli::dom::{
    collapse_dom_tree, flatten_fragments, format_dom_node, format_mini_node, is_blank_text,
    is_meaningful_attr, is_structural_tag, DomNode,
};
use browser_cli::options::SnapshotOptions;

fn plain_opts() -> SnapshotOptions {
    SnapshotOptions {
        interactive: false,
        compact: false,
        react: false,
        max_depth: None,
        filter: None,
        full: false,
        mini: false,
    }
}

fn element(tag: &str, attrs: Vec<(&str, &str)>, children: Vec<DomNode>) -> DomNode {
    let mut map = serde_json::Map::new();
    for (k, v) in attrs {
        map.insert(k.to_string(), serde_json::Value::String(v.to_string()));
    }
    DomNode { tag: Some(tag.to_string()), text: None, attrs: map, children }
}

fn text(text: &str) -> DomNode {
    DomNode {
        tag: None,
        text: Some(text.to_string()),
        attrs: serde_json::Map::new(),
        children: vec![],
    }
}

fn fragment(children: Vec<DomNode>) -> DomNode {
    DomNode { tag: None, text: None, attrs: serde_json::Map::new(), children }
}

fn full(node: &DomNode, opts: &SnapshotOptions) -> Vec<String> {
    let mut lines = Vec::new();
    format_dom_node(node, 0, opts, &mut lines);
    lines
}

fn mini(node: &DomNode, opts: &SnapshotOptions) -> Vec<String> {
    let mut lines = Vec::new();
    format_mini_node(node, 0, opts, &mut lines);
    lines
}

/// The tree written out with every field, to compare two trees.
fn shape(node: &DomNode) -> String {
    let attrs: Vec<String> = node.attrs.iter().map(|(k, v)| format!("{}={}", k, v)).collect();
    let kids: Vec<String> = node.children.iter().map(shape).collect();
    format!("<{:?} {:?} [{}] ({})>", node.tag, node.text, attrs.join(" "), kids.join(" "))
}

fn copy(node: &DomNode) -> DomNode {
    DomNode {
        tag: node.tag.clone(),
        text: node.text.clone(),
        attrs: node.attrs.clone(),
        children: node.children.iter().map(copy).collect(),
    }
}

fn sample() -> DomNode {
    element(
        "html",
        vec![("lang", "en")],
        vec![element(
            "body",
            vec![],
            vec![
                element("div", vec![], vec![]),
                element(
                    "div",
                    vec![("role", "group")],
                    vec![
                        element("span", vec![], vec![text("one")]),
                        element("a", vec![("href", "/x")], vec![element("p", vec![], vec![text("two")])]),
                    ],
                ),
                element("ul", vec![("id", "list")], vec![element("li", vec![], vec![text("  ")])]),
                element("input", vec![("aria-label", "q")], vec![]),
            ],
        )],
    )
}

#[test]
fn collapse_twice_is_collapse_once() {
    let once = collapse_dom_tree(sample()).unwrap();
    let twice = collapse_dom_tree(copy(&once)).unwrap();
    assert_eq!(shape(&twice), shape(&once));
}

#[test]
fn collapse_of_sample_tree() {
    let once = collapse_dom_tree(sample()).unwrap();
    assert_eq!(
        mini(&once, &SnapshotOptions { mini: true, ..plain_opts() }),
        vec![
            "- html lang=\"en\"",
            "  - body",
            "    - \"one\"",
            "    - a href=\"/x\" \"two\"",
            "    - ul id=\"list\"",
            "    - input aria-label=\"q\"",
        ]
    );
}

#[test]
fn collapse_drops_blank_text_and_empty_wrappers() {
    assert!(collapse_dom_tree(text("")).is_none());
    assert!(collapse_dom_tree(text(" \n\t ")).is_none());
    assert!(collapse_dom_tree(element("div", vec![], vec![])).is_none());
    assert!(collapse_dom_tree(element("div", vec![], vec![text(" ")])).is_none());
    assert!(collapse_dom_tree(element("div", vec![("aria-hidden", "true")], vec![])).is_none());
    assert!(collapse_dom_tree(fragment(vec![])).is_none());
    let kept = collapse_dom_tree(text(" hi ")).unwrap();
    assert_eq!(kept.text.as_deref(), Some(" hi "));
}

#[test]
fn collapse_keeps_elements_that_say_something() {
    let img = collapse_dom_tree(element("img", vec![], vec![])).unwrap();
    assert_eq!(img.tag.as_deref(), Some("img"));
    let div = collapse_dom_tree(element("div", vec![("id", "x")], vec![])).unwrap();
    assert_eq!(div.tag.as_deref(), Some("div"));
    assert_eq!(div.attrs.len(), 1);
    let with_text = DomNode {
        tag: Some("div".to_string()),
        text: Some(String::new()),
        attrs: serde_json::Map::new(),
        children: vec![],
    };
    assert!(collapse_dom_tree(with_text).is_some());
}

#[test]
fn a_bare_wrapper_becomes_a_fragment_without_attributes() {
    let wrapper = element("div", vec![("role", "group"), ("aria-label", "x")], vec![text("t")]);
    let out = collapse_dom_tree(wrapper).unwrap();
    assert!(out.tag.is_none());
    assert!(out.text.is_none());
    assert!(out.attrs.is_empty());
    assert_eq!(out.children.len(), 1);
}

#[test]
fn a_fragment_is_collapsed_like_a_bare_wrapper() {
    let out = collapse_dom_tree(fragment(vec![element("div", vec![], vec![]), text("t")])).unwrap();
    assert!(out.tag.is_none() && out.text.is_none());
    assert_eq!(out.children.len(), 1);
    assert_eq!(out.children[0].text.as_deref(), Some("t"));
}

#[test]
fn flatten_expands_fragments_in_place() {
    let nodes = vec![
        text("a"),
        fragment(vec![text("b"), fragment(vec![text("c"), fragment(vec![])]), text("d")]),
        element("p", vec![], vec![fragment(vec![text("inner")])]),
        fragment(vec![]),
        text("e"),
    ];
    let flat = flatten_fragments(nodes);
    let seen: Vec<String> = flat
        .iter()
        .map(|n| n.text.clone().or(n.tag.clone()).unwrap())
        .collect();
    assert_eq!(seen, vec!["a", "b", "c", "d", "p", "e"]);
    assert_eq!(flat[4].children.len(), 1);
    assert!(flat[4].children[0].tag.is_none() && flat[4].children[0].text.is_none());
}

#[test]
fn flatten_twice_is_flatten_once() {
    let nodes = vec![fragment(vec![text("b"), fragment(vec![text("c")])]), text("e")];
    let once = flatten_fragments(nodes);
    let first: Vec<String> = once.iter().map(shape).collect();
    let twice = flatten_fragments(once);
    let second: Vec<String> = twice.iter().map(shape).collect();
    assert_eq!(first, second);
    assert_eq!(second.len(), 3);
}

#[test]
fn full_outline_skips_attributes_that_are_no_strings() {
    let mut attrs = serde_json::Map::new();
    attrs.insert("id".to_string(), serde_json::Value::String("a".to_string()));
    attrs.insert("n".to_string(), serde_json::Value::from(3));
    attrs.insert("on".to_string(), serde_json::Value::Bool(true));
    attrs.insert("title".to_string(), serde_json::Value::String("b".to_string()));
    let node = DomNode { tag: Some("div".to_string()), text: None, attrs, children: vec![] };
    assert_eq!(full(&node, &plain_opts()), vec!["- div id=\"a\" title=\"b\""]);
}

#[test]
fn full_outline_has_a_line_for_every_node_within_depth() {
    let tree = sample();
    assert_eq!(full(&tree, &plain_opts()).len(), 13);
    let opts = SnapshotOptions { max_depth: Some(2), ..plain_opts() };
    assert_eq!(
        full(&tree, &opts),
        vec![
            "- html lang=\"en\"",
            "  - body",
            "    - div",
            "    - div role=\"group\"",
            "    - ul id=\"list\"",
            "    - input aria-label=\"q\"",
        ]
    );
}

#[test]
fn depth_zero_gives_one_line_for_a_root() {
    let opts = SnapshotOptions { max_depth: Some(0), ..plain_opts() };
    assert_eq!(full(&sample(), &opts), vec!["- html lang=\"en\""]);
    assert_eq!(mini(&sample(), &opts), vec!["- html lang=\"en\""]);
}

#[test]
fn every_line_is_indented_by_its_depth() {
    let lines = full(&sample(), &plain_opts());
    let depths = [0, 1, 2, 2, 3, 4, 3, 4, 5, 2, 3, 4, 2];
    assert_eq!(lines.len(), depths.len());
    for (line, depth) in lines.iter().zip(depths) {
        let blanks = line.len() - line.trim_start_matches(' ').len();
        assert_eq!(blanks, 2 * depth, "{}", line);
        assert!(line[blanks..].starts_with("- "));
    }
}

#[test]
fn mini_outline_writes_a_single_text_child_on_the_line() {
    let node = element("button", vec![("type", "submit")], vec![text("Go")]);
    assert_eq!(mini(&node, &plain_opts()), vec!["- button type=\"submit\" \"Go\""]);
    assert_eq!(
        full(&node, &plain_opts()),
        vec!["- button type=\"submit\"", "  - \"Go\""]
    );
    let two = element("p", vec![], vec![text("a"), text("b")]);
    assert_eq!(mini(&two, &plain_opts()), vec!["- p", "  - \"a\"", "  - \"b\""]);
    let nested = element("p", vec![], vec![element("b", vec![], vec![text("x")])]);
    assert_eq!(mini(&nested, &plain_opts()), vec!["- p", "  - b \"x\""]);
}

#[test]
fn mini_outline_writes_the_text_child_even_at_the_greatest_depth() {
    let node = element("a", vec![], vec![text("Home")]);
    let opts = SnapshotOptions { max_depth: Some(0), ..plain_opts() };
    assert_eq!(mini(&node, &opts), vec!["- a \"Home\""]);
}

#[test]
fn structural_tags_are_the_listed_ones() {
    for tag in [
        "div", "span", "p", "section", "main", "article", "header", "footer", "nav", "aside",
        "figure", "figcaption", "ul", "ol", "li", "dl", "dt", "dd", "table", "tbody", "thead",
        "tfoot", "tr", "td", "th", "center", "fieldset", "form",
    ] {
        assert!(is_structural_tag(tag), "{}", tag);
    }
    for tag in ["a", "img", "button", "input", "DIV", "", "h1", "svg"] {
        assert!(!is_structural_tag(tag), "{}", tag);
    }
}

#[test]
fn meaningful_attributes() {
    for key in ["aria-label", "aria-", "role", "tabindex", "hidden", "dir", "lang"] {
        assert!(!is_meaningful_attr(key), "{}", key);
    }
    for key in ["id", "href", "aria", "data-testid", "Role", "arialabel", ""] {
        assert!(is_meaningful_attr(key), "{}", key);
    }
}

#[test]
fn blank_texts() {
    assert!(is_blank_text(""));
    assert!(is_blank_text(" \t\r\n\u{a0}\u{2003}\u{3000}"));
    assert!(!is_blank_text(" x "));
    assert!(!is_blank_text("\u{200b}"));
}
