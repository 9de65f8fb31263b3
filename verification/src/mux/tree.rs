//! The tree of panes in a window.

use crate::mux::share::{Share, ZERO};
use vstd::prelude::*;

verus! {

pub type PaneId = u32;

#[derive(Clone, Copy, Debug, PartialEq, Eq, Structural)]
pub enum Dir {
    /// Children side by side (a `split --right`).
    Row,
    /// Children stacked (a `split --down`).
    Col,
}

#[derive(Debug)]
pub enum LayoutNode {
    Leaf(PaneId),
    Split { dir: Dir, children: Vec<(Share, LayoutNode)> },
}

pub enum LayoutView {
    Leaf(PaneId),
    Split { dir: Dir, children: Seq<(Share, LayoutView)> },
}

pub open spec fn layout_view(n: LayoutNode) -> LayoutView
    decreases n,
{
    match n {
        LayoutNode::Leaf(p) => LayoutView::Leaf(p),
        LayoutNode::Split { dir, children } => LayoutView::Split {
            dir,
            children: Seq::new(
                children@.len(),
                |i: int|
                    if 0 <= i < children@.len() {
                        (children@[i].0, layout_view(children@[i].1))
                    } else {
                        (Share { bits: ZERO }, LayoutView::Leaf(0))
                    },
            ),
        },
    }
}

impl View for LayoutNode {
    type V = LayoutView;

    open spec fn view(&self) -> LayoutView {
        layout_view(*self)
    }
}

/// The children of a split by their views.
pub open spec fn children_view(children: Seq<(Share, LayoutNode)>) -> Seq<(Share, LayoutView)> {
    Seq::new(children.len(), |i: int| (children[i].0, children[i].1@))
}

/// A node's view by its variant.
pub broadcast proof fn layout_view_cases(n: LayoutNode)
    ensures
        #[trigger] n@ == (match n {
            LayoutNode::Leaf(p) => LayoutView::Leaf(p),
            LayoutNode::Split { dir, children } => LayoutView::Split {
                dir,
                children: children_view(children@),
            },
        }),
{
    match n {
        LayoutNode::Leaf(_) => {},
        LayoutNode::Split { dir, children } => {
            assert(n@->children =~= children_view(children@));
        },
    }
}

} // verus!
