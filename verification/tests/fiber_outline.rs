use browser_cli::fiber::{
    collect_filtered_subtrees, format_fiber_node, has_interactive_descendant, TreeNode,
};
use browser_cli::glob::glob_match;
use browser_cli::options::SnapshotOptions;

fn default_opts() -> SnapshotOptions {
    SnapshotOptions {
        interactive: false,
        compact: false,
        react: false,
        max_depth: None,
        filter: None,
        full: false,
        mini: false,
    }
}

fn make_component(name: &str, children: Vec<TreeNode>) -> TreeNode {
    TreeNode {
        name: name.to_string(),
        is_component: true,
        props: serde_json::Map::new(),
        ref_id: None,
        box_rect: None,
        role: None,
        aria_name: None,
        tag: None,
        html_attrs: None,
        children,
    }
}

fn make_host(
    tag: &str,
    aria_name: Option<&str>,
    ref_id: Option<&str>,
    children: Vec<TreeNode>,
) -> TreeNode {
    TreeNode {
        name: tag.to_string(),
        is_component: false,
        props: serde_json::Map::new(),
        ref_id: ref_id.map(String::from),
        box_rect: None,
        role: None,
        aria_name: aria_name.map(String::from),
        tag: Some(tag.to_string()),
        html_attrs: None,
        children,
    }
}

fn format_tree(nodes: &[TreeNode], opts: &SnapshotOptions) -> Vec<String> {
    let mut lines = Vec::new();
    for node in nodes {
        if opts.filter.is_some() {
            collect_filtered_subtrees(node, opts, &mut lines);
        } else {
            format_fiber_node(node, 0, opts, &mut lines);
        }
    }
    lines
}

#[test]
fn snapshot_test_basic_tree_output() {
    let tree = vec![make_component(
        "App",
        vec![make_component(
            "NavBar",
            vec![make_host("button", Some("Click me"), Some("e1"), vec![])],
        )],
    )];
    let lines = format_tree(&tree, &default_opts());
    assert_eq!(
        lines,
        vec!["- App", "  - NavBar", "    - button \"Click me\" [ref=e1]",]
    );
}

#[test]
fn snapshot_test_interactive_filter() {
    let tree = vec![make_component(
        "App",
        vec![
            make_host(
                "div",
                None,
                None,
                vec![make_host("button", Some("OK"), Some("e1"), vec![])],
            ),
            make_host("a", Some("Home"), Some("e2"), vec![]),
        ],
    )];
    let opts = SnapshotOptions {
        interactive: true,
        ..default_opts()
    };
    let lines = format_tree(&tree, &opts);
    assert_eq!(
        lines,
        vec![
            "- App",
            "  - button \"OK\" [ref=e1]",
            "  - a \"Home\" [ref=e2]",
        ]
    );
}

#[test]
fn snapshot_test_compact_filter() {
    let tree = vec![
        make_component(
            "HasButton",
            vec![make_host("button", Some("OK"), Some("e1"), vec![])],
        ),
        make_component("NoInteractive", vec![make_component("Inner", vec![])]),
    ];
    let opts = SnapshotOptions {
        compact: true,
        ..default_opts()
    };
    let lines = format_tree(&tree, &opts);
    assert_eq!(lines, vec!["- HasButton", "  - button \"OK\" [ref=e1]",]);
}

#[test]
fn snapshot_test_max_depth() {
    let tree = vec![make_component(
        "L0",
        vec![make_component(
            "L1",
            vec![make_component("L2", vec![make_component("L3", vec![])])],
        )],
    )];
    let opts = SnapshotOptions {
        max_depth: Some(2),
        ..default_opts()
    };
    let lines = format_tree(&tree, &opts);
    assert_eq!(lines, vec!["- L0", "  - L1", "    - L2"]);
}

#[test]
fn snapshot_test_filter_substring() {
    let tree = vec![make_component(
        "App",
        vec![
            make_component(
                "ComicCard",
                vec![make_host("a", Some("Comic 1"), Some("e1"), vec![])],
            ),
            make_component(
                "NavBar",
                vec![make_host("button", Some("Menu"), Some("e2"), vec![])],
            ),
            make_component(
                "ComicList",
                vec![make_component(
                    "ComicCard",
                    vec![make_host("a", Some("Comic 2"), Some("e3"), vec![])],
                )],
            ),
        ],
    )];
    let opts = SnapshotOptions {
        filter: Some("ComicCard".to_string()),
        ..default_opts()
    };
    let lines = format_tree(&tree, &opts);
    assert_eq!(
        lines,
        vec![
            "- ComicCard",
            "  - a \"Comic 1\" [ref=e1]",
            "- ComicCard",
            "  - a \"Comic 2\" [ref=e3]",
        ]
    );
}

#[test]
fn snapshot_test_filter_case_insensitive() {
    let tree = vec![make_component(
        "NavBar",
        vec![make_host("button", Some("Menu"), Some("e1"), vec![])],
    )];
    let opts = SnapshotOptions {
        filter: Some("navbar".to_string()),
        ..default_opts()
    };
    let lines = format_tree(&tree, &opts);
    assert_eq!(lines, vec!["- NavBar", "  - button \"Menu\" [ref=e1]",]);
}

#[test]
fn snapshot_test_filter_glob_prefix() {
    let tree = vec![make_component(
        "App",
        vec![
            make_component("ComicCard", vec![]),
            make_component("ComicList", vec![]),
            make_component("NavBar", vec![]),
        ],
    )];
    let opts = SnapshotOptions {
        filter: Some("Comic*".to_string()),
        ..default_opts()
    };
    let lines = format_tree(&tree, &opts);
    assert_eq!(lines, vec!["- ComicCard", "- ComicList"]);
}

#[test]
fn snapshot_test_filter_glob_suffix() {
    let tree = vec![make_component(
        "App",
        vec![
            make_component("ComicCard", vec![]),
            make_component("ArtistCard", vec![]),
            make_component("NavBar", vec![]),
        ],
    )];
    let opts = SnapshotOptions {
        filter: Some("*Card".to_string()),
        ..default_opts()
    };
    let lines = format_tree(&tree, &opts);
    assert_eq!(lines, vec!["- ComicCard", "- ArtistCard"]);
}

#[test]
fn snapshot_test_filter_no_match() {
    let tree = vec![make_component(
        "App",
        vec![make_component("NavBar", vec![])],
    )];
    let opts = SnapshotOptions {
        filter: Some("DoesNotExist".to_string()),
        ..default_opts()
    };
    let lines = format_tree(&tree, &opts);
    assert!(lines.is_empty());
}

#[test]
fn snapshot_test_props_rendering() {
    let mut props = serde_json::Map::new();
    props.insert(
        "slug".to_string(),
        serde_json::Value::String("batman".to_string()),
    );
    props.insert("count".to_string(), serde_json::Value::from(42));
    props.insert("active".to_string(), serde_json::Value::Bool(true));
    let mut nested = serde_json::Map::new();
    nested.insert("nested".to_string(), serde_json::Value::Bool(true));
    props.insert("data".to_string(), serde_json::Value::Object(nested));
    let tree = vec![TreeNode {
        name: "Comic".to_string(),
        is_component: true,
        props,
        ref_id: None,
        box_rect: None,
        role: None,
        aria_name: None,
        tag: None,
        html_attrs: None,
        children: vec![],
    }];
    let lines = format_tree(&tree, &default_opts());
    let line = &lines[0];
    assert!(line.contains("slug=\"batman\""));
    assert!(line.contains("count={42}"));
    assert!(line.contains("active={true}"));
    assert!(line.contains("data={...}"));
}

#[test]
fn snapshot_test_html_attrs_on_host() {
    let mut html_attrs = serde_json::Map::new();
    html_attrs.insert(
        "href".to_string(),
        serde_json::Value::String("/home".to_string()),
    );
    let tree = vec![TreeNode {
        name: "a".to_string(),
        is_component: false,
        props: serde_json::Map::new(),
        ref_id: Some("e1".to_string()),
        box_rect: None,
        role: None,
        aria_name: Some("Home".to_string()),
        tag: Some("a".to_string()),
        html_attrs: Some(html_attrs),
        children: vec![],
    }];
    let lines = format_tree(&tree, &default_opts());
    assert_eq!(lines, vec!["- a \"Home\" [ref=e1] href=\"/home\""]);
}

#[test]
fn snapshot_test_glob_match_exact() {
    assert!(glob_match("hello", "hello"));
    assert!(!glob_match("hello", "world"));
}

#[test]
fn snapshot_test_glob_match_wildcard() {
    assert!(glob_match("comic*", "comiccard"));
    assert!(glob_match("*card", "comiccard"));
    assert!(glob_match("*mic*", "comiccard"));
    assert!(glob_match("comic*card", "comiccard"));
    assert!(!glob_match("comic*", "navbarcomic"));
    assert!(!glob_match("*card", "cardnav"));
}

#[test]
fn snapshot_test_has_interactive_descendant() {
    let tree = make_component(
        "Wrapper",
        vec![make_component(
            "Inner",
            vec![make_host("button", Some("OK"), Some("e1"), vec![])],
        )],
    );
    assert!(has_interactive_descendant(&tree));

    let no_interactive = make_component("Wrapper", vec![make_component("Inner", vec![])]);
    assert!(!has_interactive_descendant(&no_interactive));
}
