//! The tabs that the browser lists, and the choice of the tab to drive.
use vstd::prelude::*;
use crate::text::{chars_of, occurs_at, stands_at};

verus! {

/// A tab as the browser lists it.
#[allow(non_snake_case)]
pub struct TargetJson {
    pub id: String,
    pub title: String,
    pub url: String,
    /// What the target is: `page` for a tab.
    pub target_type: String,
    pub webSocketDebuggerUrl: Option<String>,
}

/// Why no tab could be chosen.
#[derive(Clone, Copy, Debug, PartialEq, Eq, Structural)]
pub enum TargetError {
    /// The browser lists no tab.
    NoPages,
}

impl TargetError {
    /// The message for the user.
    pub fn message(&self) -> (text: String)
        ensures
            text@ == "No pages found. Open a tab in Chrome first."@,
    {
        "No pages found. Open a tab in Chrome first.".to_string()
    }
}

/// The address of a page of the browser's own: one that starts with
/// `about:` or with `chrome://`.
pub open spec fn internal_url(url: Seq<char>) -> bool {
    occurs_at(url, "about:"@, 0) || occurs_at(url, "chrome://"@, 0)
}

/// The place of the first tab, among the first `upto`, that shows a page
/// not of the browser's own.
pub open spec fn first_page(targets: Seq<TargetJson>, upto: int) -> Option<int>
    decreases upto,
{
    if upto <= 0 {
        None
    } else {
        match first_page(targets, upto - 1) {
            Some(i) => Some(i),
            None => if internal_url(targets[upto - 1].url@) {
                None
            } else {
                Some(upto - 1)
            },
        }
    }
}

/// The place of the tab to drive: the first that shows a page not of the
/// browser's own, else the first tab.
pub open spec fn active_index(targets: Seq<TargetJson>) -> int {
    match first_page(targets, targets.len() as int) {
        Some(i) => i,
        None => 0,
    }
}

/// What `first_page` finds is a tab with a page not of the browser's own,
/// and every tab before it shows one of the browser's own.
pub proof fn lemma_first_page(targets: Seq<TargetJson>, upto: int)
    requires
        0 <= upto <= targets.len(),
    ensures
        match first_page(targets, upto) {
            Some(i) => 0 <= i < upto && !internal_url(targets[i].url@) && forall|j: int|
                0 <= j < i ==> internal_url(#[trigger] targets[j].url@),
            None => forall|j: int| 0 <= j < upto ==> internal_url(#[trigger] targets[j].url@),
        },
    decreases upto,
{
    if upto > 0 {
        lemma_first_page(targets, upto - 1);
    }
}

/// Whether the address is one of a page of the browser's own.
pub fn is_internal_url(url: &str) -> (r: bool)
    ensures
        r == internal_url(url@),
{
    let u = chars_of(url);
    let about = chars_of("about:");
    let chrome = chars_of("chrome://");
    stands_at(&u, &about, 0) || stands_at(&u, &chrome, 0)
}

/// The tab to drive: the first that shows a page not of the browser's own,
/// else the first tab. `NoPages` exactly where the list is empty.
pub fn find_active_target(targets: &[TargetJson]) -> (r: Result<&TargetJson, TargetError>)
    ensures
        match r {
            Ok(t) => targets@.len() > 0 && *t == targets@[active_index(targets@)],
            Err(e) => targets@.len() == 0 && e == TargetError::NoPages,
        },
{
    let mut i: usize = 0;
    while i < targets.len()
        invariant
            i <= targets.len(),
            first_page(targets@, i as int) is None,
        decreases targets.len() - i,
    {
        if !is_internal_url(targets[i].url.as_str()) {
            proof {
                assert(first_page(targets@, i + 1) == Some(i as int));
                lemma_first_page(targets@, i + 1);
                lemma_first_page(targets@, targets@.len() as int);
            }
            return Ok(&targets[i]);
        }
        i += 1;
    }
    if targets.len() == 0 {
        Err(TargetError::NoPages)
    } else {
        Ok(&targets[0])
    }
}

} // verus!
