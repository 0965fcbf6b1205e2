//! The tree-linked entity/component store.

pub mod arena;
pub mod children;
pub mod children_iter;
pub mod children_laws;
pub mod compare;
pub mod component;
pub mod entity;
pub mod iterators;
pub mod key;
pub mod linkdata;
pub mod query;
pub mod shape;
pub mod table;

pub use arena::Treecs;
pub use key::EntityKey;
