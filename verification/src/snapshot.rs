//! Taking a snapshot: which source to ask, what to do with the answer, and
//! the text that comes of it. The asking itself is the caller's: the library
//! names the request, the caller performs it and hands the reply back.
use vstd::prelude::*;
use crate::ax::{ax_lines_all, ax_models, format_ax_nodes, AXNode, AxModel};
use crate::ax_tree::{build_ax_tree, rebuilt};
use crate::dom::{
    collapse_dom_tree, collapsed, dom_lines, dom_models, flatten_fragments, flattened,
    format_dom_node, format_mini_nodes, mini_lines_of, mini_shown_all, DomModel, DomNode,
};
use crate::fiber::{
    collect_filtered_subtrees, fiber_lines, filtered_lines, format_fiber_node, models, NodeModel,
    TreeNode,
};
use crate::options::{Mode, OptionsModel, SnapshotOptions};
use crate::probes::{build_fiber_walker_script, fiber_script, DEFAULT_WALK_DEPTH, DOM_WALKER};
use crate::text::{join_lines, joined, texts};

verus! {

/// The text of a snapshot in which the accessibility tree or the document
/// shows nothing.
pub const EMPTY_PAGE: &'static str = "(empty page)";

/// The text of a snapshot in which the component tree shows nothing.
pub const EMPTY_TREE: &'static str = "(empty)";

/// The first line of a component snapshot of a page whose component names
/// are all single capital letters.
pub const MINIFIED_WARNING: &'static str =
    "# Warning: All component names are minified (production build)";

/// What the component walker hands back.
pub struct FiberResult {
    /// Whether the page holds a component tree at all.
    pub found: bool,
    /// The roots of the component tree.
    pub tree: Vec<TreeNode>,
    /// Whether every component name is a single capital letter.
    pub all_minified: bool,
}

/// The mathematical model of a [`FiberResult`].
pub struct FiberModel {
    pub found: bool,
    pub tree: Seq<NodeModel>,
    pub all_minified: bool,
}

impl View for FiberResult {
    type V = FiberModel;

    open spec fn view(&self) -> FiberModel {
        FiberModel { found: self.found, tree: models(self.tree@), all_minified: self.all_minified }
    }
}

/// Why a snapshot could not be taken.
pub enum SnapshotError {
    /// The request to the browser failed.
    Transport(String),
    /// The reply lacks a part that it must have.
    ProtocolShape(String),
    /// The reply could not be read as what was asked for.
    Parse(String),
}

/// The mathematical model of a [`SnapshotError`].
pub enum ErrorModel {
    Transport(Seq<char>),
    ProtocolShape(Seq<char>),
    Parse(Seq<char>),
}

impl View for SnapshotError {
    type V = ErrorModel;

    open spec fn view(&self) -> ErrorModel {
        match self {
            SnapshotError::Transport(m) => ErrorModel::Transport(m@),
            SnapshotError::ProtocolShape(m) => ErrorModel::ProtocolShape(m@),
            SnapshotError::Parse(m) => ErrorModel::Parse(m@),
        }
    }
}

/// What the caller is to ask of the browser.
pub enum Request {
    /// The whole accessibility tree, by the method `AX_TREE_METHOD`.
    AxTree,
    /// The value of the script, run in the page.
    Evaluate(String),
}

/// The method that hands out the whole accessibility tree.
pub const AX_TREE_METHOD: &'static str = "Accessibility.getFullAXTree";

/// The mathematical model of a [`Request`].
pub enum RequestModel {
    AxTree,
    Evaluate(Seq<char>),
}

impl View for Request {
    type V = RequestModel;

    open spec fn view(&self) -> RequestModel {
        match self {
            Request::AxTree => RequestModel::AxTree,
            Request::Evaluate(s) => RequestModel::Evaluate(s@),
        }
    }
}

/// What came of a request.
pub enum Reply {
    /// The flat list of the nodes of the accessibility tree.
    AxNodes(Vec<AXNode>),
    /// What the component walker handed back.
    Fiber(FiberResult),
    /// The root of the document tree.
    Dom(DomNode),
    /// The reply lacks the part that holds what was asked for.
    Missing(String),
    /// The reply could not be read as what was asked for.
    Unreadable(String),
    /// The request itself failed.
    Failed(String),
}

/// The mathematical model of a [`Reply`].
pub enum ReplyModel {
    AxNodes(Seq<AxModel>),
    Fiber(FiberModel),
    Dom(DomModel),
    Missing(Seq<char>),
    Unreadable(Seq<char>),
    Failed(Seq<char>),
}

impl View for Reply {
    type V = ReplyModel;

    open spec fn view(&self) -> ReplyModel {
        match self {
            Reply::AxNodes(nodes) => ReplyModel::AxNodes(ax_models(nodes@)),
            Reply::Fiber(result) => ReplyModel::Fiber(result@),
            Reply::Dom(root) => ReplyModel::Dom(root@),
            Reply::Missing(m) => ReplyModel::Missing(m@),
            Reply::Unreadable(m) => ReplyModel::Unreadable(m@),
            Reply::Failed(m) => ReplyModel::Failed(m@),
        }
    }
}

/// What is to happen next: another request, to be answered for the named
/// source, or the end, with the text of the snapshot or the error.
pub enum Step {
    Ask(Mode, Request),
    Done(Result<String, SnapshotError>),
}

/// The mathematical model of a [`Step`].
pub enum StepModel {
    Ask(Mode, RequestModel),
    Done(Result<Seq<char>, ErrorModel>),
}

impl View for Step {
    type V = StepModel;

    open spec fn view(&self) -> StepModel {
        match self {
            Step::Ask(mode, request) => StepModel::Ask(*mode, request@),
            Step::Done(Ok(text)) => StepModel::Done(Ok(text@)),
            Step::Done(Err(e)) => StepModel::Done(Err(e@)),
        }
    }
}

/// The lines joined, or `fallback` where there is no line.
pub open spec fn text_or(lines: Seq<Seq<char>>, fallback: Seq<char>) -> Seq<char> {
    if lines.len() == 0 {
        fallback
    } else {
        joined(lines)
    }
}

/// The snapshot of the accessibility tree that the flat list `nodes`
/// describes.
pub open spec fn ax_text(nodes: Seq<AxModel>, opts: OptionsModel) -> Seq<char> {
    if nodes.len() == 0 {
        EMPTY_PAGE@
    } else {
        text_or(ax_lines_all(rebuilt(nodes), 0, opts), EMPTY_PAGE@)
    }
}

/// The lines that one root of the component tree gives: under a filter the
/// outlines of its matching nodes, else its own outline.
pub open spec fn fiber_root_lines(root: NodeModel, opts: OptionsModel) -> Seq<Seq<char>> {
    if opts.filter is Some {
        filtered_lines(root, opts)
    } else {
        fiber_lines(root, 0, opts)
    }
}

/// The lines that the roots of the component tree give, one root after the
/// other.
pub open spec fn fiber_tree_lines(tree: Seq<NodeModel>, opts: OptionsModel) -> Seq<Seq<char>>
    decreases tree.len(),
{
    if tree.len() == 0 {
        Seq::empty()
    } else {
        fiber_tree_lines(tree.drop_last(), opts) + fiber_root_lines(tree.last(), opts)
    }
}

/// The warning line, where it is due.
pub open spec fn warning_lines(all_minified: bool) -> Seq<Seq<char>> {
    if all_minified {
        seq![MINIFIED_WARNING@]
    } else {
        Seq::empty()
    }
}

/// The snapshot of the component tree.
pub open spec fn fiber_text(result: FiberModel, opts: OptionsModel) -> Seq<char> {
    text_or(warning_lines(result.all_minified) + fiber_tree_lines(result.tree, opts), EMPTY_TREE@)
}

/// The snapshot of the document as it is.
pub open spec fn dom_text(root: DomModel, opts: OptionsModel) -> Seq<char> {
    text_or(dom_lines(root, 0, opts), EMPTY_PAGE@)
}

/// The roots that the collapsed document is drawn from: the collapse
/// itself, or, where that is a fragment, its children flattened.
pub open spec fn mini_roots(collapse: DomModel) -> Seq<DomModel> {
    if collapse.is_fragment() {
        flattened(collapse.children)
    } else {
        seq![collapse]
    }
}

/// The snapshot of the document with its bare wrappers collapsed.
pub open spec fn mini_text(root: DomModel, opts: OptionsModel) -> Seq<char> {
    match collapsed(root) {
        None => EMPTY_PAGE@,
        Some(c) => joined(mini_lines_of(mini_shown_all(mini_roots(c), 0, opts))),
    }
}

/// The request that a snapshot begins with.
pub open spec fn first_request(opts: OptionsModel) -> RequestModel {
    match opts.mode() {
        Mode::Ax => RequestModel::AxTree,
        Mode::Fiber => RequestModel::Evaluate(
            fiber_script(
                match opts.max_depth {
                    Some(d) => d,
                    None => DEFAULT_WALK_DEPTH as nat,
                },
            ),
        ),
        Mode::Full => RequestModel::Evaluate(DOM_WALKER@),
        Mode::Mini => RequestModel::Evaluate(DOM_WALKER@),
    }
}

/// The error for a reply that does not answer what was asked.
pub open spec fn unexpected_reply() -> ErrorModel {
    ErrorModel::ProtocolShape("the reply does not answer the request"@)
}

/// What follows the reply to the request that was made for `mode`.
///
/// A failed request ends the snapshot with the failure. A reply that
/// cannot be read, or lacks its content, ends it as well, unless the
/// component tree was asked for: then, and where the page holds no
/// component tree, the accessibility tree is asked for in its place.
/// Every other reply ends the snapshot with its text.
pub open spec fn advanced(mode: Mode, reply: ReplyModel, opts: OptionsModel) -> StepModel {
    match reply {
        ReplyModel::Failed(m) => StepModel::Done(Err(ErrorModel::Transport(m))),
        ReplyModel::Missing(m) => if mode == Mode::Fiber {
            StepModel::Ask(Mode::Ax, RequestModel::AxTree)
        } else {
            StepModel::Done(Err(ErrorModel::ProtocolShape(m)))
        },
        ReplyModel::Unreadable(m) => if mode == Mode::Fiber {
            StepModel::Ask(Mode::Ax, RequestModel::AxTree)
        } else {
            StepModel::Done(Err(ErrorModel::Parse(m)))
        },
        ReplyModel::AxNodes(nodes) => if mode == Mode::Ax {
            StepModel::Done(Ok(ax_text(nodes, opts)))
        } else {
            StepModel::Done(Err(unexpected_reply()))
        },
        ReplyModel::Fiber(result) => if mode == Mode::Fiber {
            if result.found {
                StepModel::Done(Ok(fiber_text(result, opts)))
            } else {
                StepModel::Ask(Mode::Ax, RequestModel::AxTree)
            }
        } else {
            StepModel::Done(Err(unexpected_reply()))
        },
        ReplyModel::Dom(root) => if mode == Mode::Full {
            StepModel::Done(Ok(dom_text(root, opts)))
        } else if mode == Mode::Mini {
            StepModel::Done(Ok(mini_text(root, opts)))
        } else {
            StepModel::Done(Err(unexpected_reply()))
        },
    }
}

/// Only a request for the component tree is ever followed by another
/// request, and that one asks for the accessibility tree; the reply to it
/// ends the snapshot. So no snapshot takes more than two requests.
pub proof fn lemma_two_requests_at_most(mode: Mode, reply: ReplyModel, opts: OptionsModel)
    ensures
        advanced(mode, reply, opts) is Ask ==> mode == Mode::Fiber && advanced(mode, reply, opts)
            == StepModel::Ask(Mode::Ax, RequestModel::AxTree),
        advanced(Mode::Ax, reply, opts) is Done,
{
}

/// An error ends the snapshot exactly where the request failed, or where
/// the reply cannot be used and the component tree was not what was asked
/// for; nothing of a text comes with it.
pub proof fn lemma_errors(mode: Mode, reply: ReplyModel, opts: OptionsModel)
    ensures
        advanced(mode, reply, opts) matches StepModel::Done(Err(_)) <==> (reply is Failed || (mode
            != Mode::Fiber && (reply is Missing || reply is Unreadable)) || (reply is AxNodes
            && mode != Mode::Ax) || (reply is Fiber && mode != Mode::Fiber) || (reply is Dom
            && mode != Mode::Full && mode != Mode::Mini)),
{
}

/// The lines joined, or `fallback` where there is no line.
fn lines_or(lines: &Vec<String>, fallback: &str) -> (text: String)
    ensures
        text@ == text_or(texts(lines@), fallback@),
{
    if lines.len() == 0 {
        fallback.to_string()
    } else {
        join_lines(lines)
    }
}

/// The snapshot of the accessibility tree that the flat list describes:
/// the tree is rebuilt and drawn from its roots.
pub fn aria_snapshot(nodes: Vec<AXNode>, opts: &SnapshotOptions) -> (text: String)
    ensures
        text@ == ax_text(ax_models(nodes@), opts@),
{
    if nodes.len() == 0 {
        return EMPTY_PAGE.to_string();
    }
    let roots = build_ax_tree(nodes);
    let mut lines: Vec<String> = Vec::new();
    assert(texts(lines@) =~= Seq::<Seq<char>>::empty());
    format_ax_nodes(&roots, 0, opts, &mut lines);
    assert(texts(lines@) =~= ax_lines_all(ax_models(roots@), 0, opts@));
    lines_or(&lines, EMPTY_PAGE)
}

/// The snapshot of the component tree, or `None` where the page holds no
/// component tree.
pub fn react_snapshot(fiber: &FiberResult, opts: &SnapshotOptions) -> (r: Option<String>)
    ensures
        match r {
            Some(text) => fiber@.found && text@ == fiber_text(fiber@, opts@),
            None => !fiber@.found,
        },
{
    if !fiber.found {
        return None;
    }
    let ghost tree = fiber@.tree;
    let mut lines: Vec<String> = Vec::new();
    if fiber.all_minified {
        lines.push(MINIFIED_WARNING.to_string());
    }
    let ghost head = warning_lines(fiber.all_minified);
    assert(texts(lines@) =~= head);
    let mut i: usize = 0;
    while i < fiber.tree.len()
        invariant
            i <= fiber.tree.len(),
            tree == models(fiber.tree@),
            texts(lines@) == head + fiber_tree_lines(tree.take(i as int), opts@),
        decreases fiber.tree.len() - i,
    {
        proof {
            let upto = tree.take(i + 1);
            assert(upto.drop_last() =~= tree.take(i as int));
            assert(upto.last() == fiber.tree@[i as int]@);
        }
        if opts.filter.is_some() {
            collect_filtered_subtrees(&fiber.tree[i], opts, &mut lines);
        } else {
            format_fiber_node(&fiber.tree[i], 0, opts, &mut lines);
        }
        i += 1;
        assert(texts(lines@) =~= head + fiber_tree_lines(tree.take(i as int), opts@));
    }
    assert(tree.take(fiber.tree.len() as int) =~= tree);
    Some(lines_or(&lines, EMPTY_TREE))
}

/// The snapshot of the document as it is.
pub fn dom_snapshot(root: &DomNode, opts: &SnapshotOptions) -> (text: String)
    ensures
        text@ == dom_text(root@, opts@),
{
    let mut lines: Vec<String> = Vec::new();
    assert(texts(lines@) =~= Seq::<Seq<char>>::empty());
    format_dom_node(root, 0, opts, &mut lines);
    assert(texts(lines@) =~= dom_lines(root@, 0, opts@));
    lines_or(&lines, EMPTY_PAGE)
}

/// The snapshot of the document with its bare wrappers collapsed.
pub fn mini_snapshot(root: DomNode, opts: &SnapshotOptions) -> (text: String)
    ensures
        text@ == mini_text(root@, opts@),
{
    let collapse = match collapse_dom_tree(root) {
        None => {
            return EMPTY_PAGE.to_string();
        },
        Some(c) => c,
    };
    let ghost model = collapse@;
    proof {
        collapse.lemma_children();
    }
    let roots = if collapse.is_fragment() {
        flatten_fragments(collapse.children)
    } else {
        let mut one: Vec<DomNode> = Vec::new();
        one.push(collapse);
        assert(dom_models(one@) =~= seq![model]);
        one
    };
    assert(dom_models(roots@) == mini_roots(model));
    let mut lines: Vec<String> = Vec::new();
    assert(texts(lines@) =~= Seq::<Seq<char>>::empty());
    format_mini_nodes(&roots, 0, opts, &mut lines);
    assert(texts(lines@) =~= mini_lines_of(mini_shown_all(mini_roots(model), 0, opts@)));
    join_lines(&lines)
}

/// The source that the options choose, and the request to begin with.
pub fn begin(opts: &SnapshotOptions) -> (r: (Mode, Request))
    ensures
        r.0 == opts@.mode(),
        r.1@ == first_request(opts@),
{
    let mode = opts.mode();
    let request = match mode {
        Mode::Ax => Request::AxTree,
        Mode::Fiber => {
            let depth = match opts.max_depth {
                Some(d) => d,
                None => DEFAULT_WALK_DEPTH,
            };
            Request::Evaluate(build_fiber_walker_script(depth))
        },
        Mode::Full => Request::Evaluate(DOM_WALKER.to_string()),
        Mode::Mini => Request::Evaluate(DOM_WALKER.to_string()),
    };
    (mode, request)
}

/// The error for a reply that does not answer what was asked.
fn unexpected() -> (step: Step)
    ensures
        step@ == StepModel::Done(Err(unexpected_reply())),
{
    Step::Done(
        Err(SnapshotError::ProtocolShape("the reply does not answer the request".to_string())),
    )
}

/// What follows the reply to the request that was made for `mode`: the
/// snapshot's text, an error, or the request for the accessibility tree
/// where the component tree cannot be had.
pub fn advance(mode: Mode, reply: Reply, opts: &SnapshotOptions) -> (step: Step)
    ensures
        step@ == advanced(mode, reply@, opts@),
{
    match reply {
        Reply::Failed(m) => Step::Done(Err(SnapshotError::Transport(m))),
        Reply::Missing(m) => {
            if mode == Mode::Fiber {
                Step::Ask(Mode::Ax, Request::AxTree)
            } else {
                Step::Done(Err(SnapshotError::ProtocolShape(m)))
            }
        },
        Reply::Unreadable(m) => {
            if mode == Mode::Fiber {
                Step::Ask(Mode::Ax, Request::AxTree)
            } else {
                Step::Done(Err(SnapshotError::Parse(m)))
            }
        },
        Reply::AxNodes(nodes) => {
            if mode == Mode::Ax {
                Step::Done(Ok(aria_snapshot(nodes, opts)))
            } else {
                unexpected()
            }
        },
        Reply::Fiber(result) => {
            if mode == Mode::Fiber {
                match react_snapshot(&result, opts) {
                    Some(text) => Step::Done(Ok(text)),
                    None => Step::Ask(Mode::Ax, Request::AxTree),
                }
            } else {
                unexpected()
            }
        },
        Reply::Dom(root) => {
            if mode == Mode::Full {
                Step::Done(Ok(dom_snapshot(&root, opts)))
            } else if mode == Mode::Mini {
                Step::Done(Ok(mini_snapshot(root, opts)))
            } else {
                unexpected()
            }
        },
    }
}

} // verus!
