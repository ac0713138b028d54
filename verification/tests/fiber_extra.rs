use browser_cli::fiber::{
    collect_filtered_subtrees, fiber_line_of, format_fiber_node, has_interactive_descendant,
    is_interactive_tag, BoxRect, TreeNode,
};
use browser_cli::glob::{glob_match, name_matches_filter};
use browser_cli::options::SnapshotOptions;

fn plain_opts() -> SnapshotOptions {
    SnapshotOptions {
        interactive: false,
        compact: false,
        react: false,
        max_depth: None,
        filter: None,
        full: false,
        mini: false,
    }
}

fn component(name: &str, children: Vec<TreeNode>) -> TreeNode {
    TreeNode {
        name: name.to_string(),
        is_component: true,
        props: serde_json::Map::new(),
        ref_id: None,
        box_rect: None,
        role: None,
        aria_name: None,
        tag: None,
        html_attrs: None,
        children,
    }
}

fn host(tag: &str, children: Vec<TreeNode>) -> TreeNode {
    TreeNode {
        name: tag.to_string(),
        is_component: false,
        props: serde_json::Map::new(),
        ref_id: None,
        box_rect: None,
        role: None,
        aria_name: None,
        tag: Some(tag.to_string()),
        html_attrs: None,
        children,
    }
}

fn outline(node: &TreeNode, opts: &SnapshotOptions) -> Vec<String> {
    let mut lines = Vec::new();
    format_fiber_node(node, 0, opts, &mut lines);
    lines
}

fn filtered(node: &TreeNode, filter: &str) -> Vec<String> {
    let opts = SnapshotOptions { filter: Some(filter.to_string()), ..plain_opts() };
    let mut lines = Vec::new();
    collect_filtered_subtrees(node, &opts, &mut lines);
    lines
}

fn string(s: &str) -> serde_json::Value {
    serde_json::Value::String(s.to_string())
}

#[test]
fn a_line_shows_its_parts_in_order() {
    let mut props = serde_json::Map::new();
    props.insert("slug".to_string(), string("batman"));
    props.insert("count".to_string(), serde_json::Value::from(42));
    props.insert("ratio".to_string(), serde_json::Value::from(1.5));
    props.insert("debt".to_string(), serde_json::Value::from(-7));
    props.insert("active".to_string(), serde_json::Value::Bool(false));
    props.insert("none".to_string(), serde_json::Value::Null);
    props.insert("list".to_string(), serde_json::Value::Array(vec![]));
    let mut attrs = serde_json::Map::new();
    attrs.insert("href".to_string(), string("/home"));
    attrs.insert("slug".to_string(), string("hidden by the property"));
    attrs.insert("tabindex".to_string(), serde_json::Value::from(0));
    attrs.insert("id".to_string(), string("nav"));
    let node = TreeNode {
        name: "a".to_string(),
        is_component: false,
        props,
        ref_id: Some("e4".to_string()),
        box_rect: Some(BoxRect { x: 10, y: -3, width: 120, height: 0 }),
        role: Some("link".to_string()),
        aria_name: Some("Home".to_string()),
        tag: Some("a".to_string()),
        html_attrs: Some(attrs),
        children: vec![],
    };
    assert_eq!(
        fiber_line_of(&node, 2),
        "    - a \"Home\" [ref=e4] [x=10 y=-3 w=120 h=0] slug=\"batman\" count={42} \
         ratio={1.5} debt={-7} active={false} none={null} list={...} href=\"/home\" id=\"nav\""
    );
}

#[test]
fn a_component_shows_neither_accessible_name_nor_attributes() {
    let mut attrs = serde_json::Map::new();
    attrs.insert("href".to_string(), string("/home"));
    let node = TreeNode {
        aria_name: Some("Home".to_string()),
        html_attrs: Some(attrs),
        ref_id: Some("e1".to_string()),
        ..component("Link", vec![])
    };
    assert_eq!(fiber_line_of(&node, 0), "- Link [ref=e1]");
}

#[test]
fn box_coordinates_at_the_ends_of_the_range() {
    let node = TreeNode {
        box_rect: Some(BoxRect { x: i64::MIN, y: i64::MAX, width: -1, height: 1000000 }),
        ..host("div", vec![])
    };
    assert_eq!(
        fiber_line_of(&node, 0),
        "- div [x=-9223372036854775808 y=9223372036854775807 w=-1 h=1000000]"
    );
}

#[test]
fn interactive_outline_shows_interactive_hosts_only() {
    let tree = component(
        "App",
        vec![
            host("main", vec![host("section", vec![host("input", vec![]), host("p", vec![])])]),
            component("Footer", vec![host("span", vec![host("summary", vec![])])]),
        ],
    );
    let opts = SnapshotOptions { interactive: true, ..plain_opts() };
    let lines = outline(&tree, &opts);
    assert_eq!(lines, vec!["- App", "  - input", "  - Footer", "    - summary"]);
    for line in &lines {
        let name = line.trim_start().trim_start_matches("- ");
        assert!(name == "App" || name == "Footer" || is_interactive_tag(name));
    }
}

#[test]
fn a_host_without_a_tag_is_passed_over_by_the_interactive_filter() {
    let odd = TreeNode { tag: None, ..host("x", vec![host("button", vec![])]) };
    let opts = SnapshotOptions { interactive: true, ..plain_opts() };
    assert_eq!(outline(&odd, &opts), vec!["- button"]);
}

#[test]
fn compact_outline_drops_components_without_interactive_hosts() {
    let tree = component(
        "App",
        vec![
            component("Text", vec![host("p", vec![])]),
            host("div", vec![component("Deep", vec![host("span", vec![])])]),
            component("Form", vec![host("div", vec![host("select", vec![])])]),
        ],
    );
    let opts = SnapshotOptions { compact: true, ..plain_opts() };
    assert_eq!(
        outline(&tree, &opts),
        vec!["- App", "  - div", "  - Form", "    - div", "      - select"]
    );
    let none = component("Lonely", vec![host("p", vec![])]);
    assert!(outline(&none, &opts).is_empty());
}

#[test]
fn depth_zero_gives_one_line_unless_the_root_is_passed_over() {
    let tree = component("App", vec![host("button", vec![]), host("a", vec![])]);
    let opts = SnapshotOptions { max_depth: Some(0), ..plain_opts() };
    assert_eq!(outline(&tree, &opts), vec!["- App"]);
    let wrapper = host("div", vec![host("button", vec![host("a", vec![])]), host("a", vec![])]);
    let opts = SnapshotOptions { max_depth: Some(0), interactive: true, ..plain_opts() };
    assert_eq!(outline(&wrapper, &opts), vec!["- button", "- a"]);
}

#[test]
fn the_line_count_is_the_number_of_nodes_taken() {
    let tree = component(
        "App",
        vec![
            host("div", vec![host("button", vec![]), host("span", vec![])]),
            component("Empty", vec![]),
        ],
    );
    assert_eq!(outline(&tree, &plain_opts()).len(), 5);
    let interactive = SnapshotOptions { interactive: true, ..plain_opts() };
    assert_eq!(outline(&tree, &interactive).len(), 3);
    let compact = SnapshotOptions { compact: true, ..plain_opts() };
    assert_eq!(outline(&tree, &compact).len(), 4);
    let shallow = SnapshotOptions { max_depth: Some(1), ..plain_opts() };
    assert_eq!(outline(&tree, &shallow).len(), 3);
}

#[test]
fn a_match_inside_a_match_is_drawn_again() {
    let tree = component(
        "CardList",
        vec![component("Card", vec![host("a", vec![])]), component("Other", vec![])],
    );
    assert_eq!(
        filtered(&tree, "card"),
        vec!["- CardList", "  - Card", "    - a", "  - Other", "- Card", "  - a"]
    );
}

#[test]
fn every_root_under_a_filter_matches() {
    let tree = component(
        "App",
        vec![
            component("UserCard", vec![]),
            component("Sidebar", vec![component("cardholder", vec![])]),
            host("card", vec![]),
        ],
    );
    let top = |lines: Vec<String>| -> Vec<String> {
        lines.into_iter().filter(|l| l.starts_with("- ")).map(|l| l[2..].to_string()).collect()
    };
    for name in top(filtered(&tree, "CARD")) {
        assert!(name.to_ascii_lowercase().contains("card"));
    }
    assert_eq!(top(filtered(&tree, "CARD")), vec!["UserCard", "cardholder", "card"]);
    assert_eq!(top(filtered(&tree, "*Card")), vec!["UserCard", "card"]);
    assert_eq!(top(filtered(&tree, "card*")), vec!["cardholder", "card"]);
    assert_eq!(top(filtered(&tree, "*")).len(), 5);
}

#[test]
fn no_filter_text_matches_every_node() {
    let tree = component("A", vec![component("B", vec![])]);
    let mut lines = Vec::new();
    collect_filtered_subtrees(&tree, &plain_opts(), &mut lines);
    assert_eq!(lines, vec!["- A", "  - B", "- B"]);
}

#[test]
fn lines_are_added_behind_those_that_are_there() {
    let mut lines = vec!["kept".to_string()];
    format_fiber_node(&component("A", vec![]), 3, &plain_opts(), &mut lines);
    assert_eq!(lines, vec!["kept", "      - A"]);
}

#[test]
fn glob_edges() {
    assert!(glob_match("*", ""));
    assert!(glob_match("*", "anything"));
    assert!(glob_match("**", "x"));
    assert!(glob_match("", ""));
    assert!(!glob_match("", "x"));
    assert!(glob_match("a*", "a"));
    assert!(glob_match("*a", "a"));
    assert!(glob_match("a*b*c", "a-b-c"));
    assert!(glob_match("a*b*c", "abc"));
    assert!(!glob_match("a*b*c", "acb"));
    assert!(!glob_match("a*b", "ab-"));
    assert!(glob_match("a**b", "a-b"));
    assert!(glob_match("*b*", "abc"));
    assert!(!glob_match("b*", "abc"));
}

#[test]
fn glob_takes_the_first_place_of_each_segment() {
    assert!(!glob_match("*a", "aba"));
    assert!(!glob_match("*ab", "abab"));
    assert!(glob_match("*ab*", "abab"));
    assert!(!glob_match("a*a", "aaa"));
}

#[test]
fn glob_ignores_ascii_case() {
    assert!(glob_match("Comic*", "comicCARD"));
    assert!(glob_match("HELLO", "hello"));
    assert!(!glob_match("é", "É"));
    assert!(glob_match("é*", "école"));
}

#[test]
fn name_filters() {
    assert!(name_matches_filter("NavBar", "vba"));
    assert!(name_matches_filter("NavBar", ""));
    assert!(!name_matches_filter("NavBar", "navbars"));
    assert!(name_matches_filter("NavBar", "NAV*"));
    assert!(!name_matches_filter("NavBar", "bar*"));
    assert!(name_matches_filter("NavBar", "*bar"));
    assert!(!name_matches_filter("Nav*Bar", "v*b"));
    assert!(name_matches_filter("Nav*Bar", "nav*bar"));
}

#[test]
fn interactive_tags_are_the_listed_ones() {
    for tag in ["a", "button", "input", "select", "textarea", "details", "summary"] {
        assert!(is_interactive_tag(tag));
    }
    for tag in ["div", "A", "", "form", "label", "aa"] {
        assert!(!is_interactive_tag(tag));
    }
}

#[test]
fn the_node_itself_counts_as_interactive() {
    assert!(has_interactive_descendant(&host("button", vec![])));
    assert!(!has_interactive_descendant(&host("div", vec![])));
    assert!(!has_interactive_descendant(&component("button", vec![])));
    let named = TreeNode { tag: Some("a".to_string()), ..component("Link", vec![]) };
    assert!(!has_interactive_descendant(&named));
}
