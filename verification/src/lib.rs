//! Derived per-node state for a retained UI tree: box sizing aggregated from
//! children and paint style read from a node's own attributes.

pub mod node;
pub mod propagation;
pub mod size;
pub mod style;
pub mod text;

pub use node::{Attribute, AttributeMask, Node};
pub use propagation::{NodeState, Update};
pub use size::{Axis, InvalidAttributeValue, Size, SizeMode};
pub use style::{color_str, Color, Style};
