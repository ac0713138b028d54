use browser_cli::targets::{find_active_target, is_internal_url, TargetError, TargetJson};

fn target(id: &str, url: &str) -> TargetJson {
    TargetJson {
        id: id.to_string(),
        title: format!("tab {}", id),
        url: url.to_string(),
        target_type: "page".to_string(),
        webSocketDebuggerUrl: Some(format!("ws://127.0.0.1:9222/devtools/page/{}", id)),
    }
}

#[test]
fn no_tab_is_an_error() {
    let none: Vec<TargetJson> = vec![];
    match find_active_target(&none) {
        Err(e) => {
            assert_eq!(e, TargetError::NoPages);
            assert_eq!(e.message(), "No pages found. Open a tab in Chrome first.");
        }
        Ok(_) => panic!("a tab was found in an empty list"),
    }
}

#[test]
fn the_first_ordinary_page_is_chosen() {
    let tabs = vec![
        target("1", "about:blank"),
        target("2", "chrome://newtab/"),
        target("3", "https://example.com/"),
        target("4", "https://example.org/"),
    ];
    assert_eq!(find_active_target(&tabs).unwrap().id, "3");
}

#[test]
fn without_an_ordinary_page_the_first_tab_is_chosen() {
    let tabs = vec![target("1", "chrome://settings"), target("2", "about:blank")];
    assert_eq!(find_active_target(&tabs).unwrap().id, "1");
}

#[test]
fn a_single_tab_is_chosen() {
    let tabs = vec![target("9", "http://localhost:3000/")];
    assert_eq!(find_active_target(&tabs).unwrap().id, "9");
}

#[test]
fn internal_urls() {
    assert!(is_internal_url("about:blank"));
    assert!(is_internal_url("about:"));
    assert!(is_internal_url("chrome://version"));
    assert!(!is_internal_url("chrome:/version"));
    assert!(!is_internal_url("https://about:blank"));
    assert!(!is_internal_url("About:blank"));
    assert!(!is_internal_url(""));
}
