//! A picture that is loaded from a file when it is drawn.

use crate::gui::WidgetContext;
use crate::renderer::Renderer;
use crate::widget::{Render, RenderAble};
use std::path::{Path, PathBuf};
use vstd::prelude::*;

verus! {

/// `std::path::PathBuf`: the path of a file. Its inside stays out of
/// sight.
#[verifier::external_type_specification]
#[verifier::external_body]
pub struct ExPathBuf(PathBuf);

/// A picture, given by the path of its file, with optional bounds on
/// its size.
pub struct Image {
    pub path: PathBuf,
    pub max_width: Option<u32>,
    pub max_height: Option<u32>,
}

/// `AsRef::as_ref` and `Path::to_path_buf`: the path that the argument
/// refers to. Nothing is said about it.
#[verifier::external_body]
fn path_of<T: AsRef<Path>>(path: T) -> (r: PathBuf) {
    path.as_ref().to_path_buf()
}

impl Image {
    /// The picture in the file at `path`, without bounds on its size.
    /// The path is what the argument refers to; what that is, is up to
    /// the argument's type, so [`Image::from_path`] is the one to call
    /// where the path must be known.
    pub fn new<T: AsRef<Path>>(path: T) -> (r: Self)
        ensures
            r.max_width is None,
            r.max_height is None,
    {
        Image::from_path(path_of(path))
    }

    /// The picture in the file at the given path, without bounds on its
    /// size.
    pub fn from_path(path: PathBuf) -> (r: Self)
        ensures
            r.path == path,
            r.max_width is None,
            r.max_height is None,
    {
        Image { path, max_height: None, max_width: None }
    }

    pub fn with_max_width(self, width: u32) -> (r: Self)
        ensures
            r.max_width == Some(width),
            r.max_height == self.max_height,
            r.path == self.path,
    {
        let mut r = self;
        r.max_width = Some(width);
        r
    }

    pub fn with_max_height(self, height: u32) -> (r: Self)
        ensures
            r.max_height == Some(height),
            r.max_width == self.max_width,
            r.path == self.path,
    {
        let mut r = self;
        r.max_height = Some(height);
        r
    }
}

impl<R> RenderAble<R> for Image where R: Renderer + Render<Self> {
    open spec fn grows(&self) -> nat {
        0
    }

    /// A picture has nothing below it: the context that comes back is
    /// what the renderer made of it when it was told of the mounting.
    fn mount<'gui>(&self, context: WidgetContext<'gui, R>) -> (r: WidgetContext<'gui, R>)
        ensures
            exists|m: &mut WidgetContext<'gui, R>|
                *m == context && *final(m) == r && #[trigger] call_ensures(
                    <R as Render<Image>>::mount,
                    (self, m),
                    (),
                ),
    {
        let mut context = context;
        R::mount(self, &mut context);
        context
    }
}

} // verus!
