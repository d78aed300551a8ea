//! The state kept per node, and what a tree that recomputes it bottom-up may
//! rely on when it decides how far a change travels.

use crate::node::{Node, NodeModel};
use crate::size::{
    default_size, evaluate_size, reports_first_invalid, size_step, InvalidAttributeValue, Size,
};
use crate::style::{default_style, evaluate_style, lemma_style_masked_view, style_step, Style};
use vstd::prelude::*;

verus! {

/// The derived state of one node.
#[derive(Copy, Clone, Debug, PartialEq, Eq)]
pub struct NodeState {
    pub size: Size,
    pub style: Style,
}

/// What one recomputation of a node's state found.
#[derive(Clone, Debug, PartialEq, Eq)]
pub struct Update {
    /// Whether the stored size changed.
    pub size_changed: bool,
    /// Whether the stored style changed.
    pub style_changed: bool,
    /// The first size attribute that is not valid, if there is one. The
    /// stored size is then left as it was.
    pub invalid: Option<InvalidAttributeValue>,
}

/// The sizes of a sequence of node states, in order.
pub open spec fn sizes_of(states: Seq<NodeState>) -> Seq<Size> {
    Seq::new(states.len(), |i: int| states[i].size)
}

impl Default for NodeState {
    fn default() -> (state: NodeState)
        ensures
            state.size == default_size(),
            state.style == default_style(),
    {
        NodeState { size: Size::default(), style: Style::default() }
    }
}

impl NodeState {
    /// Recomputes both kinds of state of `node`: the style from the node
    /// alone, the size from the node and the current states of its children.
    pub fn update(&mut self, node: &Node, children: &Vec<NodeState>) -> (update: Update)
        ensures
            final(self).style == style_step(old(self).style, node@).0,
            update.style_changed == style_step(old(self).style, node@).1,
            final(self).size == size_step(old(self).size, node@, sizes_of(children@)).0,
            update.size_changed == size_step(old(self).size, node@, sizes_of(children@)).1,
            match update.invalid {
                Some(error) => evaluate_size(node@, sizes_of(children@)) is None
                    && reports_first_invalid(node@, error),
                None => evaluate_size(node@, sizes_of(children@)) is Some,
            },
    {
        let mut sizes: Vec<Size> = Vec::new();
        let mut i: usize = 0;
        while i < children.len()
            invariant
                i <= children.len(),
                sizes@ == sizes_of(children@.take(i as int)),
            decreases children.len() - i,
        {
            sizes.push(children[i].size);
            proof {
                assert(sizes@ =~= sizes_of(children@.take(i + 1)));
            }
            i += 1;
        }
        proof {
            assert(children@.take(children.len() as int) =~= children@);
            lemma_style_masked_view(node@);
        }
        let masked = node.restrict(&Style::node_mask());
        let style_changed = self.style.reduce(&masked);
        match self.size.reduce(node, &sizes) {
            Ok(size_changed) => Update { size_changed, style_changed, invalid: None },
            Err(error) => Update { size_changed: false, style_changed, invalid: Some(error) },
        }
    }
}

/// Recomputing a size twice on the same inputs reports no change the second
/// time and stores the same size.
pub proof fn lemma_size_idempotent(stored: Size, node: NodeModel, children: Seq<Size>)
    ensures
        size_step(size_step(stored, node, children).0, node, children) == (
            size_step(stored, node, children).0,
            false,
        ),
{
}

/// Recomputing a style twice on the same node reports no change the second
/// time and stores the same style.
pub proof fn lemma_style_idempotent(stored: Style, node: NodeModel)
    ensures
        style_step(style_step(stored, node).0, node) == (style_step(stored, node).0, false),
{
}

/// The size stored after a recomputation does not depend on the size stored
/// before it, unless an attribute is invalid.
pub proof fn lemma_size_forgets_stored(a: Size, b: Size, node: NodeModel, children: Seq<Size>)
    requires
        evaluate_size(node, children) is Some,
    ensures
        size_step(a, node, children).0 == size_step(b, node, children).0,
{
}

/// An edit that leaves the computed size as it is stored reports no change,
/// so nothing has to be recomputed above the node.
pub proof fn lemma_size_edit_without_effect(
    stored: Size,
    before: NodeModel,
    after: NodeModel,
    children: Seq<Size>,
)
    requires
        evaluate_size(before, children) == Some(stored),
        evaluate_size(after, children) == evaluate_size(before, children),
    ensures
        size_step(stored, after, children) == (stored, false),
{
}

/// An edit that leaves the computed style as it is stored reports no change.
pub proof fn lemma_style_edit_without_effect(stored: Style, before: NodeModel, after: NodeModel)
    requires
        evaluate_style(before) == stored,
        evaluate_style(after) == evaluate_style(before),
    ensures
        style_step(stored, after) == (stored, false),
{
}

/// A recomputation reports a change exactly when the stored size differs
/// afterwards.
pub proof fn lemma_size_changed_iff_differs(stored: Size, node: NodeModel, children: Seq<Size>)
    ensures
        size_step(stored, node, children).1 == (size_step(stored, node, children).0 != stored),
{
}

} // verus!
