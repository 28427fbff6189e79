use vstd::prelude::*;

use crate::geometry::{Point, Size};

verus! {

/// The drawing backend: it receives one call per visual layer of a widget.
pub trait Renderer {
    fn render(&mut self, position: Point, size: Size, image: &str);
}

/// A visual layer, named by the reference the renderer resolves; an empty
/// image draws nothing.
#[derive(Clone, Debug)]
pub struct Image {
    pub source: Option<String>,
}

impl Default for Image {
    fn default() -> (r: Image)
        ensures
            r.source is None,
    {
        Image { source: None }
    }
}

impl Image {
    pub fn new(source: String) -> (r: Image)
        ensures
            r.source == Some(source),
    {
        Image { source: Some(source) }
    }

    pub open spec fn view(&self) -> Option<Seq<char>> {
        match self.source {
            Some(s) => Some(s@),
            None => None,
        }
    }

    /// Hands this layer to the renderer at the given place; an empty image
    /// makes no call.
    pub fn draw<R: Renderer>(&self, renderer: &mut R, position: Point, size: Size) {
        match &self.source {
            Some(s) => renderer.render(position, size, s.as_str()),
            None => {},
        }
    }
}

} // verus!
