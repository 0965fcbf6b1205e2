//! Visora: a retained-mode user interface toolkit.
//!
//! Widgets are mounted into a persistent tree, and renderers walk that
//! tree to produce output. The heart of the crate is [`treecs`], an arena
//! of tree-linked entities that carry typed components, with the
//! traversals and queries that the rest is built on. Its structural
//! operations, its traversals and the laws that relate them are verified.

pub mod color;
pub mod gui;
pub mod html;
pub mod renderer;
pub mod state;
pub mod treecs;
pub mod widget;
