use browser_cli::dom::{dom_line_of, is_space_char, mini_line_of, DomNode};
use browser_cli::glob::wildcard_match_chars;
use browser_cli::options::SnapshotOptions;

fn chars(s: &str) -> Vec<char> {
    s.chars().collect()
}

fn node(tag: Option<&str>, text: Option<&str>, children: Vec<DomNode>) -> DomNode {
    let mut attrs = serde_json::Map::new();
    attrs.insert("id".to_string(), serde_json::Value::String("n".to_string()));
    DomNode { tag: tag.map(String::from), text: text.map(String::from), attrs, children }
}

#[test]
fn options_cut_below_the_greatest_depth() {
    let mut opts = SnapshotOptions {
        interactive: false,
        compact: false,
        react: false,
        max_depth: Some(3),
        filter: None,
        full: false,
        mini: false,
    };
    assert!(!opts.cuts(0));
    assert!(!opts.cuts(3));
    assert!(opts.cuts(4));
    opts.max_depth = Some(0);
    assert!(!opts.cuts(0));
    assert!(opts.cuts(1));
    opts.max_depth = None;
    assert!(!opts.cuts(0));
    assert!(!opts.cuts(usize::MAX));
}

#[test]
fn wildcard_match_keeps_case() {
    assert!(wildcard_match_chars(&chars("ab*"), &chars("abc")));
    assert!(!wildcard_match_chars(&chars("AB*"), &chars("abc")));
    assert!(!wildcard_match_chars(&chars("abc"), &chars("ABC")));
    assert!(wildcard_match_chars(&chars("*"), &chars("")));
}

#[test]
fn kinds_of_nodes() {
    let element = node(Some("p"), None, vec![]);
    assert!(!element.is_fragment() && !element.is_text());
    let text = node(None, Some("t"), vec![]);
    assert!(!text.is_fragment() && text.is_text());
    let fragment = node(None, None, vec![]);
    assert!(fragment.is_fragment() && !fragment.is_text());
    let both = node(Some("p"), Some("t"), vec![]);
    assert!(!both.is_fragment() && !both.is_text());
}

#[test]
fn lines_of_single_nodes() {
    assert_eq!(dom_line_of(&node(Some("p"), None, vec![]), 1), "  - p id=\"n\"");
    assert_eq!(dom_line_of(&node(Some("p"), Some("t"), vec![]), 0), "- p id=\"n\"");
    assert_eq!(dom_line_of(&node(None, Some("say \"hi\""), vec![]), 2), "    - \"say \"hi\"\"");
    let parent = node(Some("a"), None, vec![node(None, Some("Home"), vec![])]);
    assert_eq!(dom_line_of(&parent, 0), "- a id=\"n\"");
    assert_eq!(mini_line_of(&parent, 0), "- a id=\"n\" \"Home\"");
    let wide = node(
        Some("a"),
        None,
        vec![node(None, Some("x"), vec![]), node(None, Some("y"), vec![])],
    );
    assert_eq!(mini_line_of(&wide, 3), "      - a id=\"n\"");
    let around = node(Some("a"), None, vec![node(Some("b"), Some("x"), vec![])]);
    assert_eq!(mini_line_of(&around, 0), "- a id=\"n\"");
}

#[test]
fn white_space() {
    for c in [' ', '\t', '\n', '\u{b}', '\u{c}', '\r', '\u{85}', '\u{a0}', '\u{1680}', '\u{2000}',
        '\u{200a}', '\u{2028}', '\u{2029}', '\u{202f}', '\u{205f}', '\u{3000}']
    {
        assert!(is_space_char(c), "{:?}", c);
        assert!(c.is_whitespace());
    }
    for c in ['a', '0', '\u{8}', '\u{e}', '\u{200b}', '\u{feff}', '\u{2060}', '_'] {
        assert!(!is_space_char(c), "{:?}", c);
        assert!(!c.is_whitespace());
    }
}
