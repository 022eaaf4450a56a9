//! A virtual-tree library: an immutable node model, attribute merging,
//! tree-construction helpers that keep text nodes apart, serialization to
//! markup, and the plan of live-tree operations that materializes a tree.
pub mod attributes;
pub mod dom;
pub mod html;
pub mod node;
pub mod render;
