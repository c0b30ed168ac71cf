//! The tree data model and its renderers.

pub mod tree_node;
pub mod style;
pub mod layout;
pub mod vertical;
pub mod horizontal;
