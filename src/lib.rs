//! A themable widget toolkit: a tree of widgets held in an arena by stable
//! handles, a cascading theme catalog, hit-tested event dispatch and a
//! painter's-order traversal.

pub mod color;
pub mod geometry;
pub mod image;
pub mod input;
pub mod theme;
pub mod tree_lemmas;
pub mod widget;
pub mod widget_tree;
