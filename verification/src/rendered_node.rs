use vstd::prelude::*;

use crate::Vec2;

verus! {

/// The measured result of laying out a node's textual content: the label
/// characters, their measured size, the anchor position they were measured
/// at, the font they were measured with, and the requested text size.
#[derive(Clone, Debug)]
pub struct SizedText<Font> {
    pub content: String,
    pub dimensions: Vec2,
    pub position: Vec2,
    pub font: Font,
    pub size: i64,
}

/// A closed rectangle outline, spanning from its top-left corner `min` to
/// its bottom-right corner `max`.
#[derive(Clone, Copy, Debug, PartialEq, Eq, Structural)]
pub struct RectPath {
    pub min: Vec2,
    pub max: Vec2,
}

/// One drawable element of a rendered node: either its outline rectangle or
/// its sized text block.
#[derive(Clone, Debug)]
pub enum NodeElement<Font> {
    Path(RectPath),
    Text(SizedText<Font>),
}

/// The two margin settings of a layout pass: `inner_margins` pads a node's
/// own text inside its box; `outer_margins` reserves space around each child
/// subtree stacked inside a parent.
pub struct Margins {
    pub inner_margins: Vec2,
    pub outer_margins: Vec2,
}

/// The computed layout of one tree node: its top-left corner, its bounding
/// box size, its two drawable elements (outline rectangle, then text), and
/// the ids its content links to.
#[derive(Clone, Debug)]
pub struct RenderedNode<Font> {
    pub position: Vec2,
    pub node_elements: Vec<NodeElement<Font>>,
    pub node_links: Vec<u64>,
    pub dimensions: Vec2,
}

} // verus!
