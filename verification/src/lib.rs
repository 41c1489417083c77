use vstd::prelude::*;

pub mod content;
pub mod laws;
pub mod model;
pub mod rendered_node;
pub mod tree;

use std::collections::HashMap;

use crate::model::{
    ext_x, ext_x_children, ext_y, ext_y_children, lay_children, lay_node, margins_ok, node_matches,
    sizes_ok, sizes_ok_children, Placed,
};
use crate::rendered_node::{Margins, NodeElement, RectPath, RenderedNode, SizedText};
use crate::tree::{
    children_depth, children_id_set, children_ids_ok, id_set, ids_ok, tree_depth, Tree, TreeNode,
};

verus! {

broadcast use vstd::std_specs::hash::group_hash_axioms;

/// A 2-D coordinate pair, used both as a point and as a width/height size.
#[derive(Clone, Copy, Debug, PartialEq, Eq, Structural)]
pub struct Vec2 {
    pub x: i64,
    pub y: i64,
}

impl Vec2 {
    fn new(x: i64, y: i64) -> (r: Self)
        ensures
            r == (Vec2 { x, y }),
    {
        Vec2 { x, y }
    }
}

/// The ways a layout call can fail. Any of these, at any recursion depth,
/// aborts the whole call; no partial result is handed out.
#[derive(Clone, Copy, Debug, PartialEq, Eq, Structural)]
pub enum LayoutError {
    /// The input tree has no root; raised only by the entry point.
    EmptyTree,
    /// A referenced node id does not resolve in the tree.
    NodeNotFound,
    /// A node resolves but its value cannot be retrieved.
    BrokenNode,
    /// A node carries no payload.
    EmptyNode,
    /// A node's content declined to produce a sized text.
    TextMeasurementFailed,
}

/// The capability every tree-node payload must offer: measure its own text
/// under a chosen font and size, and report the ids of nodes it links to.
///
/// `spec_measure` is the size an implementation promises its text measures
/// to (or `None` when the content cannot be measured): it may depend on the
/// font, the optional bounds and the text size, but not on the anchor
/// position, which only places the measured block. `spec_text` is the label
/// the content lays out, and `spec_links` the ids it reports.
pub trait Graphable: Sized {
    type Font;

    /// The size this content measures to, or `None` when it cannot be
    /// measured under the given font, bounds and text size.
    spec fn spec_measure(
        &self,
        font: &Self::Font,
        max_width: Option<u32>,
        max_height: Option<u32>,
        size: i64,
    ) -> Option<Vec2>;

    /// The characters of the label this content lays out.
    spec fn spec_text(&self) -> Seq<char>;

    /// The ids this content links to, in order.
    spec fn spec_links(&self) -> Seq<u64>;

    /// Measure the content and return the text block laid out at `position`,
    /// or `None` when the content cannot be measured.
    fn set_text(
        &self,
        font: &Self::Font,
        max_width: Option<u32>,
        max_height: Option<u32>,
        position: Vec2,
        size: i64,
    ) -> (r: Option<SizedText<Self::Font>>)
        ensures
            r is Some <==> self.spec_measure(font, max_width, max_height, size) is Some,
            r matches Some(t) ==> {
                &&& t.dimensions == self.spec_measure(font, max_width, max_height, size)->0
                &&& t.position == position
                &&& t.size == size
                &&& t.content@ == self.spec_text()
            },
    ;

    /// The ids of the nodes this content semantically references.
    fn get_links(&self) -> (r: Vec<u64>)
        ensures
            r@ == self.spec_links(),
    ;
}

/// Recursive layout worker. Lays out the subtree rooted at `sub_tree_root`
/// with its top-left corner at `position`, adds one `RenderedNode` per
/// subtree node to `out`, and returns the subtree's folded box size.
///
/// `depth` and `max_depth` are threaded through for future depth-limiting
/// policies; the current algorithm does not act on them.
#[verifier::loop_isolation(false)]
fn layout_node<C: Graphable>(
    sub_tree_root: &TreeNode<C>,
    font: &C::Font,
    margins: &Margins,
    depth: u32,
    max_depth: Option<u32>,
    position: Vec2,
    text_size: i64,
    out: &mut HashMap<u64, RenderedNode<C::Font>>,
) -> (r: Result<Vec2, LayoutError>)
    requires
        margins_ok(*margins),
        sizes_ok(*sub_tree_root, font, text_size),
        ids_ok(*sub_tree_root),
        old(out)@.dom().disjoint(id_set(*sub_tree_root)),
        ext_x(*sub_tree_root, font, *margins, text_size) <= i64::MAX,
        ext_y(*sub_tree_root, font, *margins, text_size) <= i64::MAX,
        position.x + ext_x(*sub_tree_root, font, *margins, text_size) <= i64::MAX,
        position.y + ext_y(*sub_tree_root, font, *margins, text_size) <= i64::MAX,
        depth + tree_depth(*sub_tree_root) <= u32::MAX,
    ensures
        ({
            let model = lay_node(
                *sub_tree_root,
                font,
                *margins,
                position.x as int,
                position.y as int,
                text_size,
            );
            &&& (model.err matches Some(e) ==> r == Result::<Vec2, LayoutError>::Err(e))
            &&& (model.err is Some ==> {
                &&& final(out)@.dom().subset_of(
                    old(out)@.dom().union(id_set(*sub_tree_root)),
                )
                &&& (forall|id: u64|
                    old(out)@.dom().contains(id) ==> final(out)@[id] == old(out)@[id])
            })
            &&& (model.err is None ==> {
                &&& (r matches Ok(d) && d.x == model.w && d.y == model.h)
                &&& final(out)@.dom() == old(out)@.dom().union(id_set(*sub_tree_root))
                &&& (forall|id: u64|
                    model.map.dom().contains(id) ==> node_matches(
                        #[trigger] final(out)@[id],
                        model.map[id],
                        *margins,
                        text_size,
                    ))
                &&& (forall|id: u64|
                    old(out)@.dom().contains(id) ==> final(out)@[id] == old(out)@[id])
            })
        }),
    decreases *sub_tree_root,
{
    let ghost px = position.x as int;
    let ghost py = position.y as int;
    let ghost m0 = lay_node(*sub_tree_root, font, *margins, px, py, text_size);
    proof {
        crate::model::lemma_ext_nonneg(*sub_tree_root, font, *margins, text_size);
        crate::model::lemma_ext_children_nonneg(
            sub_tree_root.children@,
            font,
            *margins,
            text_size,
        );
    }
    let content = match &sub_tree_root.value {
        Some(c) => c,
        None => {
            return Err(LayoutError::EmptyNode);
        },
    };
    let text_position = Vec2::new(
        position.x + margins.inner_margins.x,
        position.y + margins.inner_margins.y,
    );
    let sized_text = match content.set_text(font, None, None, text_position, text_size) {
        Some(t) => t,
        None => {
            return Err(LayoutError::TextMeasurementFailed);
        },
    };
    let ghost tw = sized_text.dimensions.x as int;
    let ghost th = sized_text.dimensions.y as int;
    let mut dim_x = sized_text.dimensions.x + 2 * margins.inner_margins.x;
    let mut dim_y = sized_text.dimensions.y + 2 * margins.inner_margins.y;
    let mut cursor = Vec2::new(
        position.x + margins.inner_margins.x,
        position.y + sized_text.dimensions.y + 2 * margins.inner_margins.y,
    );
    let ghost cs = sub_tree_root.children@;
    let ghost kids_total = lay_children(
        cs,
        font,
        *margins,
        cursor.x as int,
        cursor.y as int,
        text_size,
    );
    let ghost init = out@;
    let ghost mut done: Map<u64, Placed> = Map::<u64, Placed>::empty();
    proof {
        assert(sub_tree_root.value == Some(*content));
        assert(crate::model::measure_of(*sub_tree_root, font, text_size) == Some(
            sized_text.dimensions,
        ));
        assert(cs.skip(0) =~= cs);
        if kids_total.err is None {
            assert(kids_total.map =~= Map::<u64, Placed>::empty().union_prefer_right(
                kids_total.map,
            ));
        }
    }
    let mut i: usize = 0;
    while i < sub_tree_root.children.len()
        invariant
            i <= cs.len(),
            cursor.x == position.x + margins.inner_margins.x,
            init == old(out)@,
            ({
                let suffix = lay_children(
                    cs.skip(i as int),
                    font,
                    *margins,
                    cursor.x as int,
                    cursor.y as int,
                    text_size,
                );
                &&& kids_total.err == suffix.err
                &&& (suffix.err is None ==> {
                    &&& kids_total.map == done.union_prefer_right(suffix.map)
                    &&& m0.w == vstd::math::max(dim_x as int, suffix.maxw)
                    &&& m0.h == dim_y + suffix.sumh
                })
            }),
            cursor.y + ext_y_children(cs.skip(i as int), font, *margins, text_size) <= py + ext_y(
                *sub_tree_root,
                font,
                *margins,
                text_size,
            ),
            dim_y + ext_y_children(cs.skip(i as int), font, *margins, text_size) <= ext_y(
                *sub_tree_root,
                font,
                *margins,
                text_size,
            ),
            ext_x_children(cs.skip(i as int), font, *margins, text_size) <= ext_x_children(
                cs,
                font,
                *margins,
                text_size,
            ),
            children_depth(cs.skip(i as int)) <= children_depth(cs),
            dim_x >= 0,
            dim_y >= 0,
            out@.dom() == init.dom().union(done.dom()),
            forall|id: u64|
                done.dom().contains(id) ==> node_matches(
                    #[trigger] out@[id],
                    done[id],
                    *margins,
                    text_size,
                ),
            forall|id: u64| init.dom().contains(id) ==> #[trigger] out@[id] == init[id],
            done.dom().union(children_id_set(cs.skip(i as int))) == children_id_set(cs),
            done.dom().disjoint(children_id_set(cs.skip(i as int))),
            children_ids_ok(cs.skip(i as int)),
            sizes_ok_children(cs.skip(i as int), font, text_size),
        decreases cs.len() - i,
    {
        proof {
            let sfx = cs.skip(i as int);
            assert(sfx[0] == cs[i as int]);
            assert(sfx.subrange(1, sfx.len() as int) =~= cs.skip(i as int + 1));
            crate::model::lemma_ext_nonneg(cs[i as int], font, *margins, text_size);
            crate::tree::lemma_children_depth_nonneg(cs.skip(i as int + 1));
            crate::tree::lemma_tree_depth_pos(cs[i as int]);
            crate::model::lemma_ext_children_nonneg(
                cs.skip(i as int + 1),
                font,
                *margins,
                text_size,
            );
        }
        let child = &sub_tree_root.children[i];
        let res = layout_node(
            child,
            font,
            margins,
            depth + 1,
            max_depth,
            Vec2::new(cursor.x, cursor.y),
            text_size,
            out,
        );
        let ghost mc = lay_node(
            *child,
            font,
            *margins,
            cursor.x as int,
            cursor.y as int,
            text_size,
        );
        let sub_dims = match res {
            Ok(d) => d,
            Err(e) => {
                proof {
                    assert(children_id_set(cs).subset_of(id_set(*sub_tree_root)));
                    assert(id_set(cs[i as int]).subset_of(children_id_set(cs.skip(i as int))));
                    assert(done.dom().subset_of(children_id_set(cs)));
                    assert(children_id_set(cs.skip(i as int)).subset_of(children_id_set(cs)));
                }
                return Err(e);
            },
        };
        proof {
            crate::model::lemma_lay_bounds(
                cs[i as int],
                font,
                *margins,
                cursor.x as int,
                cursor.y as int,
                text_size,
            );
            done = done.union_prefer_right(mc.map);
        }
        cursor = Vec2::new(cursor.x, cursor.y + sub_dims.y + margins.outer_margins.y);
        let min_outer = sub_dims.x + 2 * margins.outer_margins.x;
        if min_outer > dim_x {
            dim_x = min_outer;
        }
        dim_y = dim_y + sub_dims.y + margins.outer_margins.y;
        i = i + 1;
        proof {
            let sfx2 = cs.skip(i as int);
            let suffix2 = lay_children(
                sfx2,
                font,
                *margins,
                cursor.x as int,
                cursor.y as int,
                text_size,
            );
            if suffix2.err is None {
                assert(kids_total.map =~= done.union_prefer_right(suffix2.map));
            }
        }
    }
    proof {
        assert(cs.skip(cs.len() as int) =~= Seq::<TreeNode<C>>::empty());
        assert(kids_total.err is None);
        assert(kids_total.map =~= done);
        crate::model::lemma_lay_bounds(*sub_tree_root, font, *margins, px, py, text_size);
    }
    let rect = RectPath {
        min: Vec2::new(position.x, position.y),
        max: Vec2::new(position.x + dim_x, position.y + dim_y),
    };
    let mut node_elements: Vec<NodeElement<C::Font>> = Vec::new();
    node_elements.push(NodeElement::Path(rect));
    node_elements.push(NodeElement::Text(sized_text));
    let node_links = content.get_links();
    let rendered = RenderedNode {
        position: Vec2::new(position.x, position.y),
        node_elements,
        node_links,
        dimensions: Vec2::new(dim_x, dim_y),
    };
    out.insert(sub_tree_root.id, rendered);
    proof {
        assert(out@.dom() =~= old(out)@.dom().union(id_set(*sub_tree_root)));
    }
    Ok(Vec2::new(dim_x, dim_y))
}

/// Entry point: lays out the whole tree with its root's top-left corner at
/// `position`, and returns one `RenderedNode` per tree node, keyed by node
/// id. Fails with `EmptyTree` when the tree has no root; any failure below
/// the root is passed through unchanged.
pub fn graph_layer_tree<C: Graphable>(
    font: &C::Font,
    tree: Tree<C>,
    margins: &Margins,
    position: Vec2,
    text_size: i64,
) -> (r: Result<HashMap<u64, RenderedNode<C::Font>>, LayoutError>)
    requires
        margins_ok(*margins),
        tree.root matches Some(n) ==> {
            &&& sizes_ok(n, font, text_size)
            &&& ids_ok(n)
            &&& ext_x(n, font, *margins, text_size) <= i64::MAX
            &&& ext_y(n, font, *margins, text_size) <= i64::MAX
            &&& position.x + ext_x(n, font, *margins, text_size) <= i64::MAX
            &&& position.y + ext_y(n, font, *margins, text_size) <= i64::MAX
            &&& tree_depth(n) <= u32::MAX
        },
    ensures
        tree.root is None ==> r == Result::<
            HashMap<u64, RenderedNode<C::Font>>,
            LayoutError,
        >::Err(LayoutError::EmptyTree),
        tree.root matches Some(n) ==> {
            let model = lay_node(n, font, *margins, position.x as int, position.y as int, text_size);
            &&& (model.err matches Some(e) ==> r == Result::<
                HashMap<u64, RenderedNode<C::Font>>,
                LayoutError,
            >::Err(e))
            &&& (model.err is None ==> {
                &&& (r matches Ok(rendered) && rendered@.dom() == id_set(n) && (forall|id: u64|
                    model.map.dom().contains(id) ==> node_matches(
                        #[trigger] rendered@[id],
                        model.map[id],
                        *margins,
                        text_size,
                    )))
            })
        },
{
    let root_layer = match tree.root {
        Some(n) => n,
        None => {
            return Err(LayoutError::EmptyTree);
        },
    };
    let mut rendered_nodes: HashMap<u64, RenderedNode<C::Font>> = HashMap::new();
    match layout_node(
        &root_layer,
        font,
        margins,
        0,
        None,
        position,
        text_size,
        &mut rendered_nodes,
    ) {
        Ok(_) => Ok(rendered_nodes),
        Err(e) => Err(e),
    }
}

} // verus!
