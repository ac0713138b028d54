use browser_cli::ax::{AXNode, AXValue};
use browser_cli::dom::DomNode;
use browser_cli::fiber::TreeNode;
use browser_cli::json::JsonScalar;
use browser_cli::options::{Mode, SnapshotOptions};
use browser_cli::probes::{build_fiber_walker_script, DOM_WALKER, FIBER_WALKER};
use browser_cli::snapshot::{
    advance, aria_snapshot, begin, dom_snapshot, mini_snapshot, react_snapshot, FiberResult,
    Reply, Request, SnapshotError, Step, AX_TREE_METHOD, EMPTY_PAGE, EMPTY_TREE,
    MINIFIED_WARNING,
};

fn plain_opts() -> SnapshotOptions {
    SnapshotOptions {
        interactive: false,
        compact: false,
        react: false,
        max_depth: None,
        filter: None,
        full: false,
        mini: false,
    }
}

fn ax(id: &str, role: &str, name: &str, child_ids: &[&str]) -> AXNode {
    AXNode {
        node_id: id.to_string(),
        role: Some(AXValue { value: Some(JsonScalar::Text(role.to_string())) }),
        name: Some(AXValue { value: Some(JsonScalar::Text(name.to_string())) }),
        children: None,
        child_ids: child_ids.iter().map(|c| c.to_string()).collect(),
    }
}

fn component(name: &str, children: Vec<TreeNode>) -> TreeNode {
    TreeNode {
        name: name.to_string(),
        is_component: true,
        props: serde_json::Map::new(),
        ref_id: None,
        box_rect: None,
        role: None,
        aria_name: None,
        tag: None,
        html_attrs: None,
        children,
    }
}

fn element(tag: &str, attrs: Vec<(&str, &str)>, children: Vec<DomNode>) -> DomNode {
    let mut map = serde_json::Map::new();
    for (k, v) in attrs {
        map.insert(k.to_string(), serde_json::Value::String(v.to_string()));
    }
    DomNode { tag: Some(tag.to_string()), text: None, attrs: map, children }
}

fn text(text: &str) -> DomNode {
    DomNode {
        tag: None,
        text: Some(text.to_string()),
        attrs: serde_json::Map::new(),
        children: vec![],
    }
}

fn done_text(step: Step) -> String {
    match step {
        Step::Done(Ok(text)) => text,
        Step::Done(Err(_)) => panic!("the snapshot ended with an error"),
        Step::Ask(_, _) => panic!("the snapshot asked again"),
    }
}

fn done_error(step: Step) -> SnapshotError {
    match step {
        Step::Done(Err(e)) => e,
        Step::Done(Ok(text)) => panic!("the snapshot ended with {}", text),
        Step::Ask(_, _) => panic!("the snapshot asked again"),
    }
}

fn asks_for_ax_tree(step: Step) -> bool {
    matches!(step, Step::Ask(Mode::Ax, Request::AxTree))
}

#[test]
fn mode_precedence() {
    let all = SnapshotOptions { mini: true, full: true, react: true, ..plain_opts() };
    assert_eq!(all.mode(), Mode::Mini);
    let two = SnapshotOptions { full: true, react: true, ..plain_opts() };
    assert_eq!(two.mode(), Mode::Full);
    let one = SnapshotOptions { react: true, ..plain_opts() };
    assert_eq!(one.mode(), Mode::Fiber);
    assert_eq!(plain_opts().mode(), Mode::Ax);
}

#[test]
fn begin_asks_for_the_source_of_the_mode() {
    let (mode, request) = begin(&plain_opts());
    assert_eq!(mode, Mode::Ax);
    assert!(matches!(request, Request::AxTree));
    assert_eq!(AX_TREE_METHOD, "Accessibility.getFullAXTree");

    let (mode, request) = begin(&SnapshotOptions { full: true, ..plain_opts() });
    assert_eq!(mode, Mode::Full);
    match request {
        Request::Evaluate(script) => assert_eq!(script, DOM_WALKER),
        Request::AxTree => panic!("the accessibility tree was asked for"),
    }

    let (mode, request) = begin(&SnapshotOptions { mini: true, ..plain_opts() });
    assert_eq!(mode, Mode::Mini);
    match request {
        Request::Evaluate(script) => assert_eq!(script, DOM_WALKER),
        Request::AxTree => panic!("the accessibility tree was asked for"),
    }
}

#[test]
fn begin_hands_the_walker_its_depth() {
    let (mode, request) = begin(&SnapshotOptions { react: true, ..plain_opts() });
    assert_eq!(mode, Mode::Fiber);
    match request {
        Request::Evaluate(script) => {
            assert_eq!(script, format!("globalThis.__MAX_DEPTH = 200;\n{}", FIBER_WALKER));
        }
        Request::AxTree => panic!("the accessibility tree was asked for"),
    }
    let opts = SnapshotOptions { react: true, max_depth: Some(7), ..plain_opts() };
    match begin(&opts).1 {
        Request::Evaluate(script) => {
            assert!(script.starts_with("globalThis.__MAX_DEPTH = 7;\n(() => {"));
        }
        Request::AxTree => panic!("the accessibility tree was asked for"),
    }
}

#[test]
fn walker_script_numbers() {
    assert!(build_fiber_walker_script(0).starts_with("globalThis.__MAX_DEPTH = 0;\n"));
    assert!(build_fiber_walker_script(10).starts_with("globalThis.__MAX_DEPTH = 10;\n"));
    assert!(build_fiber_walker_script(1234567890)
        .starts_with("globalThis.__MAX_DEPTH = 1234567890;\n"));
    let most = build_fiber_walker_script(usize::MAX);
    assert!(most.starts_with(&format!("globalThis.__MAX_DEPTH = {};\n", usize::MAX)));
    assert!(most.ends_with(FIBER_WALKER));
}

#[test]
fn fiber_fallback() {
    let opts = SnapshotOptions { react: true, ..plain_opts() };
    let (mode, _) = begin(&opts);
    let not_found = FiberResult { found: false, tree: vec![], all_minified: false };
    let step = advance(mode, Reply::Fiber(not_found), &opts);
    assert!(asks_for_ax_tree(step));
    let nodes = vec![ax("1", "WebArea", "Example", &[])];
    let text = done_text(advance(Mode::Ax, Reply::AxNodes(nodes), &opts));
    assert_eq!(text, "- WebArea \"Example\"");
}

#[test]
fn an_unreadable_component_tree_falls_back() {
    let opts = SnapshotOptions { react: true, ..plain_opts() };
    assert!(asks_for_ax_tree(advance(
        Mode::Fiber,
        Reply::Unreadable("missing field `tree`".to_string()),
        &opts
    )));
    assert!(asks_for_ax_tree(advance(Mode::Fiber, Reply::Missing("tree".to_string()), &opts)));
}

#[test]
fn errors_end_the_snapshot() {
    let opts = plain_opts();
    match done_error(advance(Mode::Ax, Reply::Missing("No nodes".to_string()), &opts)) {
        SnapshotError::ProtocolShape(m) => assert_eq!(m, "No nodes"),
        _ => panic!("another error"),
    }
    match done_error(advance(Mode::Ax, Reply::Unreadable("bad".to_string()), &opts)) {
        SnapshotError::Parse(m) => assert_eq!(m, "bad"),
        _ => panic!("another error"),
    }
    match done_error(advance(Mode::Mini, Reply::Unreadable("bad".to_string()), &opts)) {
        SnapshotError::Parse(m) => assert_eq!(m, "bad"),
        _ => panic!("another error"),
    }
    match done_error(advance(Mode::Full, Reply::Missing("root".to_string()), &opts)) {
        SnapshotError::ProtocolShape(m) => assert_eq!(m, "root"),
        _ => panic!("another error"),
    }
    for mode in [Mode::Ax, Mode::Fiber, Mode::Full, Mode::Mini] {
        match done_error(advance(mode, Reply::Failed("closed".to_string()), &opts)) {
            SnapshotError::Transport(m) => assert_eq!(m, "closed"),
            _ => panic!("another error"),
        }
    }
}

#[test]
fn a_reply_to_another_request_is_an_error() {
    let opts = plain_opts();
    let step = advance(Mode::Ax, Reply::Dom(text("x")), &opts);
    assert!(matches!(done_error(step), SnapshotError::ProtocolShape(_)));
    let step = advance(Mode::Full, Reply::AxNodes(vec![]), &opts);
    assert!(matches!(done_error(step), SnapshotError::ProtocolShape(_)));
    let found = FiberResult { found: true, tree: vec![], all_minified: false };
    let step = advance(Mode::Mini, Reply::Fiber(found), &opts);
    assert!(matches!(done_error(step), SnapshotError::ProtocolShape(_)));
    let step = advance(Mode::Fiber, Reply::Dom(text("x")), &opts);
    assert!(matches!(done_error(step), SnapshotError::ProtocolShape(_)));
}

#[test]
fn empty_snapshots() {
    assert_eq!(EMPTY_PAGE, "(empty page)");
    assert_eq!(EMPTY_TREE, "(empty)");
    assert_eq!(aria_snapshot(vec![], &plain_opts()), "(empty page)");
    let ignored = vec![ax("1", "none", "", &[])];
    assert_eq!(aria_snapshot(ignored, &plain_opts()), "(empty page)");
    let none = FiberResult { found: true, tree: vec![], all_minified: false };
    assert_eq!(react_snapshot(&none, &plain_opts()), Some("(empty)".to_string()));
    let absent = FiberResult { found: false, tree: vec![component("App", vec![])], all_minified: true };
    assert_eq!(react_snapshot(&absent, &plain_opts()), None);
    assert_eq!(mini_snapshot(element("div", vec![], vec![]), &plain_opts()), "(empty page)");
}

#[test]
fn lines_are_joined_without_a_line_feed_at_the_end() {
    let nodes = vec![
        ax("1", "WebArea", "Page", &["2", "3"]),
        ax("2", "button", "OK", &[]),
        ax("3", "link", "Home", &[]),
    ];
    assert_eq!(
        aria_snapshot(nodes, &plain_opts()),
        "- WebArea \"Page\"\n  - button \"OK\"\n  - link \"Home\""
    );
}

#[test]
fn minified_warning_comes_first() {
    let result = FiberResult {
        found: true,
        tree: vec![component("A", vec![component("B", vec![])]), component("C", vec![])],
        all_minified: true,
    };
    assert_eq!(
        react_snapshot(&result, &plain_opts()).unwrap(),
        "# Warning: All component names are minified (production build)\n- A\n  - B\n- C"
    );
    assert_eq!(
        MINIFIED_WARNING,
        "# Warning: All component names are minified (production build)"
    );
    let quiet = FiberResult { found: true, tree: vec![], all_minified: true };
    assert_eq!(react_snapshot(&quiet, &plain_opts()).unwrap(), MINIFIED_WARNING);
}

#[test]
fn component_snapshot_under_a_filter() {
    let result = FiberResult {
        found: true,
        tree: vec![
            component("App", vec![component("ComicCard", vec![]), component("NavBar", vec![])]),
            component("ComicList", vec![]),
        ],
        all_minified: false,
    };
    let opts = SnapshotOptions { react: true, filter: Some("Comic*".to_string()), ..plain_opts() };
    assert_eq!(done_text(advance(Mode::Fiber, Reply::Fiber(result), &opts)), "- ComicCard\n- ComicList");
}

#[test]
fn document_snapshots() {
    let tree = || {
        element(
            "div",
            vec![("id", "root")],
            vec![element("a", vec![("href", "/")], vec![text("Home")])],
        )
    };
    assert_eq!(
        dom_snapshot(&tree(), &plain_opts()),
        "- div id=\"root\"\n  - a href=\"/\"\n    - \"Home\""
    );
    let opts = SnapshotOptions { mini: true, ..plain_opts() };
    assert_eq!(
        done_text(advance(Mode::Mini, Reply::Dom(tree()), &opts)),
        "- div id=\"root\"\n  - a href=\"/\" \"Home\""
    );
    let opts = SnapshotOptions { full: true, ..plain_opts() };
    assert_eq!(
        done_text(advance(Mode::Full, Reply::Dom(tree()), &opts)),
        "- div id=\"root\"\n  - a href=\"/\"\n    - \"Home\""
    );
}

#[test]
fn a_collapse_to_a_fragment_gives_several_roots() {
    let tree = element(
        "div",
        vec![],
        vec![
            element("div", vec![], vec![element("img", vec![("alt", "x")], vec![])]),
            element("p", vec![], vec![text("one"), text("two")]),
        ],
    );
    assert_eq!(
        mini_snapshot(tree, &plain_opts()),
        "- img alt=\"x\"\n- \"one\"\n- \"two\""
    );
}

#[test]
fn mini_nav_link_collapse() {
    let tree = element(
        "a",
        vec![("aria-label", "DC"), ("href", "/channel/dc")],
        vec![element(
            "div",
            vec![("role", "group")],
            vec![element(
                "div",
                vec![],
                vec![
                    element(
                        "div",
                        vec![],
                        vec![element("img", vec![("alt", "icon"), ("src", "x.svg")], vec![])],
                    ),
                    element("div", vec![], vec![element("p", vec![], vec![text("DC")])]),
                ],
            )],
        )],
    );
    let opts = SnapshotOptions { mini: true, ..plain_opts() };
    assert_eq!(
        mini_snapshot(tree, &opts),
        "- a aria-label=\"DC\" href=\"/channel/dc\"\n  - img alt=\"icon\" src=\"x.svg\"\n  - \"DC\""
    );
}

#[test]
fn walkers_are_scripts_that_call_themselves() {
    for script in [DOM_WALKER, FIBER_WALKER] {
        assert!(script.starts_with("(() => {"));
        assert!(script.ends_with("})()"));
    }
    assert!(FIBER_WALKER.contains("globalThis.__MAX_DEPTH"));
    assert!(FIBER_WALKER.contains("found: false"));
    assert!(DOM_WALKER.contains("document.documentElement"));
}
