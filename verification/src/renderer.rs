//! What a renderer is: something that turns the components it has
//! attached to the entities of an arena into output.

use crate::treecs::component::Component;
use crate::treecs::iterators::{QueryIter, WorldIter};
use crate::treecs::query::Query;
use vstd::prelude::*;

verus! {

/// A renderer. It attaches one component of its own type to every entity
/// that it is to render, and renders by running a query for that type.
pub trait Renderer {
    /// The component that the renderer attaches to entities.
    type RenderItem: Component;

    /// The traversal that the renderer's query runs on.
    type QueryType<'gui>: QueryIter<'gui, &'gui Self::RenderItem> + WorldIter<
        'gui,
        &'gui Self::RenderItem,
    >;

    /// Renders what the query yields.
    fn render<'gui>(&mut self, q: Query<'gui, &'gui Self::RenderItem, Self::QueryType<'gui>>)
        requires
            q.ready(),
    ;
}

} // verus!
