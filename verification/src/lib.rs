//! Outlines of a web page for people and programs that drive a browser: the
//! accessibility tree, the component tree of the page's framework, and the
//! document tree, whole or with its bare wrappers collapsed, each drawn as
//! indented lines.
//!
//! The library decides and draws; it does not talk to the browser. A caller
//! asks `snapshot::begin` what to request, performs the request, and hands
//! the reply to `snapshot::advance`, which answers with the text, an error,
//! or the next request.
pub mod json;
pub mod text;
pub mod glob;
pub mod options;
pub mod fiber;
pub mod fiber_laws;
pub mod dom;
pub mod dom_laws;
pub mod ax;
pub mod ax_tree;
pub mod ax_laws;
pub mod probes;
pub mod snapshot;
pub mod targets;
