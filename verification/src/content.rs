use vstd::prelude::*;

use crate::rendered_node::SizedText;
use crate::{Graphable, Vec2};

verus! {

/// A payload with a fixed label, a fixed measured size and a fixed link
/// list: content whose measurement depends on nothing but its own fields.
/// `dimensions: None` stands for content that cannot be measured.
#[derive(Clone, Debug, PartialEq, Eq)]
pub struct FixedText {
    pub content: String,
    pub dimensions: Option<Vec2>,
    pub links: Vec<u64>,
}

impl Graphable for FixedText {
    type Font = ();

    open spec fn spec_measure(
        &self,
        font: &(),
        max_width: Option<u32>,
        max_height: Option<u32>,
        size: i64,
    ) -> Option<Vec2> {
        self.dimensions
    }

    open spec fn spec_text(&self) -> Seq<char> {
        self.content@
    }

    open spec fn spec_links(&self) -> Seq<u64> {
        self.links@
    }

    fn set_text(
        &self,
        font: &(),
        max_width: Option<u32>,
        max_height: Option<u32>,
        position: Vec2,
        size: i64,
    ) -> (r: Option<SizedText<()>>) {
        match self.dimensions {
            Some(d) => Some(
                SizedText {
                    content: self.content.clone(),
                    dimensions: d,
                    position,
                    font: (),
                    size,
                },
            ),
            None => None,
        }
    }

    fn get_links(&self) -> (r: Vec<u64>) {
        self.links.clone()
    }
}

} // verus!
