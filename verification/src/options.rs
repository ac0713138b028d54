//! What a snapshot is asked to show.
use vstd::prelude::*;

verus! {

/// The options of one snapshot.
#[derive(Clone)]
pub struct SnapshotOptions {
    /// Show interactive nodes only; the children of a node left out move up.
    pub interactive: bool,
    /// Leave out nodes that carry no meaning of their own.
    pub compact: bool,
    /// Read the component tree in place of the accessibility tree.
    pub react: bool,
    /// Greatest depth shown; roots are at depth 0. Without one, the outline
    /// goes as deep as the machine counts.
    pub max_depth: Option<usize>,
    /// Substring, or pattern with `*`, that a node name must match.
    pub filter: Option<String>,
    /// Read the whole document tree.
    pub full: bool,
    /// Read the document tree with its bare wrappers collapsed.
    pub mini: bool,
}

/// The mathematical model of [`SnapshotOptions`].
pub struct OptionsModel {
    pub interactive: bool,
    pub compact: bool,
    pub react: bool,
    pub max_depth: Option<nat>,
    pub filter: Option<Seq<char>>,
    pub full: bool,
    pub mini: bool,
}

impl View for SnapshotOptions {
    type V = OptionsModel;

    open spec fn view(&self) -> OptionsModel {
        OptionsModel {
            interactive: self.interactive,
            compact: self.compact,
            react: self.react,
            max_depth: match self.max_depth {
                Some(d) => Some(d as nat),
                None => None,
            },
            filter: match self.filter {
                Some(f) => Some(f@),
                None => None,
            },
            full: self.full,
            mini: self.mini,
        }
    }
}

/// The source that a snapshot reads.
#[derive(Clone, Copy, Debug, PartialEq, Eq, Structural)]
pub enum Mode {
    /// The document tree, collapsed.
    Mini,
    /// The document tree as it is.
    Full,
    /// The component tree.
    Fiber,
    /// The accessibility tree.
    Ax,
}

impl OptionsModel {
    /// The source chosen: `mini` before `full` before `react`, else the
    /// accessibility tree.
    pub open spec fn mode(self) -> Mode {
        if self.mini {
            Mode::Mini
        } else if self.full {
            Mode::Full
        } else if self.react {
            Mode::Fiber
        } else {
            Mode::Ax
        }
    }

    /// The greatest depth shown: the one that the options name, else the
    /// greatest that the machine counts.
    pub open spec fn limit(self) -> nat {
        match self.max_depth {
            Some(max) => max,
            None => usize::MAX as nat,
        }
    }

    /// Whether a node at `depth` lies below the greatest depth shown.
    pub open spec fn cuts(self, depth: nat) -> bool {
        depth > self.limit()
    }
}

impl SnapshotOptions {
    /// The source chosen by the options.
    pub fn mode(&self) -> (m: Mode)
        ensures
            m == self@.mode(),
    {
        if self.mini {
            Mode::Mini
        } else if self.full {
            Mode::Full
        } else if self.react {
            Mode::Fiber
        } else {
            Mode::Ax
        }
    }

    /// Whether a node at `depth` lies below the greatest depth shown.
    pub fn cuts(&self, depth: usize) -> (r: bool)
        ensures
            r == self@.cuts(depth as nat),
    {
        match self.max_depth {
            Some(max) => depth > max,
            None => false,
        }
    }
}

} // verus!
