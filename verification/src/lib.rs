//! An immediate-mode terminal UI toolkit over a retained layout tree: each
//! frame a declarative call sequence is reconciled against a persistent tree
//! of view nodes, sizes are solved under min/max constraints, pointer input
//! is routed by hit-testing, and nodes are painted back-to-front with scoped
//! clipping.

pub mod axis;
pub mod debug_highlight;
pub mod input;
pub mod button;
pub mod label;
pub mod layout;
pub mod math;
pub mod render;
pub mod style;
pub mod tree;
pub mod ui;
pub mod view;
