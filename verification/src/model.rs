use vstd::prelude::*;

use crate::rendered_node::{Margins, NodeElement, RenderedNode};
use crate::tree::TreeNode;
use crate::{Graphable, LayoutError, Vec2};
use vstd::math::max;

verus! {

/// The placement the layout model assigns to one node: its top-left corner,
/// its bounding box, its measured text size, its label characters and its
/// link ids.
pub struct Placed {
    pub px: int,
    pub py: int,
    pub w: int,
    pub h: int,
    pub tw: int,
    pub th: int,
    pub content: Seq<char>,
    pub links: Seq<u64>,
}

/// What laying out one subtree yields: the first error met in depth-first
/// order, or a placement for every node plus the subtree's folded box size.
pub struct LaidOut {
    pub err: Option<LayoutError>,
    pub map: Map<u64, Placed>,
    pub w: int,
    pub h: int,
}

/// What folding a run of sibling subtrees yields: the first error, the
/// merged placements, the widest track (child width plus twice the outer
/// margin) and the total stacked height (child height plus one outer margin,
/// each).
pub struct KidsOut {
    pub err: Option<LayoutError>,
    pub map: Map<u64, Placed>,
    pub maxw: int,
    pub sumh: int,
}

/// The size the payload of `n` measures to, or `None` when the node is
/// empty or its content cannot be measured.
pub open spec fn measure_of<C: Graphable>(n: TreeNode<C>, font: &C::Font, size: i64) -> Option<
    Vec2,
> {
    if n.value is Some {
        n.value->0.spec_measure(font, None, None, size)
    } else {
        None
    }
}

/// Both margin pairs are non-negative.
pub open spec fn margins_ok(m: Margins) -> bool {
    &&& m.inner_margins.x >= 0
    &&& m.inner_margins.y >= 0
    &&& m.outer_margins.x >= 0
    &&& m.outer_margins.y >= 0
}

/// Every measurable node of the subtree measures to a non-negative size.
pub open spec fn sizes_ok<C: Graphable>(n: TreeNode<C>, font: &C::Font, size: i64) -> bool
    decreases n,
{
    &&& (measure_of(n, font, size) matches Some(d) ==> d.x >= 0 && d.y >= 0)
    &&& sizes_ok_children(n.children@, font, size)
}

/// `sizes_ok` over a run of sibling subtrees.
pub open spec fn sizes_ok_children<C: Graphable>(
    cs: Seq<TreeNode<C>>,
    font: &C::Font,
    size: i64,
) -> bool
    decreases cs,
{
    if cs.len() == 0 {
        true
    } else {
        sizes_ok(cs[0], font, size) && sizes_ok_children(
            cs.subrange(1, cs.len() as int),
            font,
            size,
        )
    }
}

/// An upper bound on every horizontal distance the layout of `n` reaches
/// from its starting x coordinate: box widths, text anchors and child
/// offsets all stay within it.
pub open spec fn ext_x<C: Graphable>(n: TreeNode<C>, font: &C::Font, m: Margins, size: i64) -> int
    decreases n,
{
    let tw = if measure_of(n, font, size) is Some {
        measure_of(n, font, size)->0.x as int
    } else {
        0
    };
    tw + 2 * m.inner_margins.x + ext_x_children(n.children@, font, m, size)
}

/// The horizontal bound contributed by a run of sibling subtrees.
pub open spec fn ext_x_children<C: Graphable>(
    cs: Seq<TreeNode<C>>,
    font: &C::Font,
    m: Margins,
    size: i64,
) -> int
    decreases cs,
{
    if cs.len() == 0 {
        0
    } else {
        ext_x(cs[0], font, m, size) + m.inner_margins.x + 2 * m.outer_margins.x
            + ext_x_children(cs.subrange(1, cs.len() as int), font, m, size)
    }
}

/// An upper bound on every vertical distance the layout of `n` reaches from
/// its starting y coordinate: box heights and every stacking cursor value
/// stay within it.
pub open spec fn ext_y<C: Graphable>(n: TreeNode<C>, font: &C::Font, m: Margins, size: i64) -> int
    decreases n,
{
    let th = if measure_of(n, font, size) is Some {
        measure_of(n, font, size)->0.y as int
    } else {
        0
    };
    th + 2 * m.inner_margins.y + ext_y_children(n.children@, font, m, size)
}

/// The vertical bound contributed by a run of sibling subtrees.
pub open spec fn ext_y_children<C: Graphable>(
    cs: Seq<TreeNode<C>>,
    font: &C::Font,
    m: Margins,
    size: i64,
) -> int
    decreases cs,
{
    if cs.len() == 0 {
        0
    } else {
        ext_y(cs[0], font, m, size) + m.outer_margins.y + ext_y_children(
            cs.subrange(1, cs.len() as int),
            font,
            m,
            size,
        )
    }
}

/// The layout of the subtree rooted at `n`, placed with its top-left corner
/// at `(px, py)`: the first error met in depth-first order, or one placement
/// per node together with the folded box size.
///
/// A node's own box is its measured text size padded by the inner margins on
/// every side. Children stack top to bottom below the text, each indented by
/// the inner margin; every child widens the parent to at least its own width
/// plus twice the outer margin and adds its height plus one outer margin to
/// the parent's height.
pub open spec fn lay_node<C: Graphable>(
    n: TreeNode<C>,
    font: &C::Font,
    m: Margins,
    px: int,
    py: int,
    size: i64,
) -> LaidOut
    decreases n,
{
    if n.value is None {
        LaidOut { err: Some(LayoutError::EmptyNode), map: Map::empty(), w: 0, h: 0 }
    } else {
        let c = n.value->0;
        match c.spec_measure(font, None, None, size) {
            Option::None => LaidOut {
                err: Some(LayoutError::TextMeasurementFailed),
                map: Map::empty(),
                w: 0,
                h: 0,
            },
            Option::Some(td) => {
                let tw = td.x as int;
                let th = td.y as int;
                let ix = m.inner_margins.x as int;
                let iy = m.inner_margins.y as int;
                let kids = lay_children(n.children@, font, m, px + ix, py + th + 2 * iy, size);
                if kids.err is Some {
                    LaidOut { err: kids.err, map: Map::empty(), w: 0, h: 0 }
                } else {
                    let w = max(tw + 2 * ix, kids.maxw);
                    let h = th + 2 * iy + kids.sumh;
                    LaidOut {
                        err: None,
                        map: kids.map.insert(
                            n.id,
                            Placed {
                                px,
                                py,
                                w,
                                h,
                                tw,
                                th,
                                content: c.spec_text(),
                                links: c.spec_links(),
                            },
                        ),
                        w,
                        h,
                    }
                }
            },
        }
    }
}

/// The fold over a run of sibling subtrees placed from `(cx, cy)` downward:
/// each child is laid out at the cursor, which then advances by the child's
/// height plus the outer margin, so one outer margin separates stacked
/// siblings and the accounted height equals the space the children occupy.
pub open spec fn lay_children<C: Graphable>(
    cs: Seq<TreeNode<C>>,
    font: &C::Font,
    m: Margins,
    cx: int,
    cy: int,
    size: i64,
) -> KidsOut
    decreases cs,
{
    if cs.len() == 0 {
        KidsOut { err: None, map: Map::empty(), maxw: 0, sumh: 0 }
    } else {
        let first = lay_node(cs[0], font, m, cx, cy, size);
        if first.err is Some {
            KidsOut { err: first.err, map: Map::empty(), maxw: 0, sumh: 0 }
        } else {
            let rest = lay_children(
                cs.subrange(1, cs.len() as int),
                font,
                m,
                cx,
                cy + first.h + m.outer_margins.y,
                size,
            );
            if rest.err is Some {
                KidsOut { err: rest.err, map: Map::empty(), maxw: 0, sumh: 0 }
            } else {
                KidsOut {
                    err: None,
                    map: first.map.union_prefer_right(rest.map),
                    maxw: max(first.w + 2 * m.outer_margins.x, rest.maxw),
                    sumh: first.h + m.outer_margins.y + rest.sumh,
                }
            }
        }
    }
}

/// How one `RenderedNode` realizes one model placement: same box, the two
/// drawable elements in order (the outline rectangle spanning the box, then
/// the text block anchored at the inner margin), and the same links.
pub open spec fn node_matches<F>(rn: RenderedNode<F>, p: Placed, m: Margins, size: i64) -> bool {
    &&& rn.position.x == p.px
    &&& rn.position.y == p.py
    &&& rn.dimensions.x == p.w
    &&& rn.dimensions.y == p.h
    &&& rn.node_links@ == p.links
    &&& rn.node_elements@.len() == 2
    &&& (rn.node_elements@[0] matches NodeElement::Path(rect) && rect.min == rn.position
        && rect.max.x == p.px + p.w && rect.max.y == p.py + p.h)
    &&& (rn.node_elements@[1] matches NodeElement::Text(t) && t.dimensions.x == p.tw
        && t.dimensions.y == p.th && t.position.x == p.px + m.inner_margins.x && t.position.y
        == p.py + m.inner_margins.y && t.size == size && t.content@ == p.content)
}

/// The horizontal and vertical bounds are at least twice the inner margins
/// and never negative.
pub proof fn lemma_ext_nonneg<C: Graphable>(n: TreeNode<C>, font: &C::Font, m: Margins, size: i64)
    requires
        margins_ok(m),
        sizes_ok(n, font, size),
    ensures
        ext_x(n, font, m, size) >= 2 * m.inner_margins.x,
        ext_y(n, font, m, size) >= 2 * m.inner_margins.y,
        ext_x(n, font, m, size) >= 0,
        ext_y(n, font, m, size) >= 0,
    decreases n,
{
    lemma_ext_children_nonneg(n.children@, font, m, size);
}

/// The bounds contributed by sibling subtrees are never negative.
pub proof fn lemma_ext_children_nonneg<C: Graphable>(
    cs: Seq<TreeNode<C>>,
    font: &C::Font,
    m: Margins,
    size: i64,
)
    requires
        margins_ok(m),
        sizes_ok_children(cs, font, size),
    ensures
        ext_x_children(cs, font, m, size) >= 0,
        ext_y_children(cs, font, m, size) >= 0,
    decreases cs,
{
    if cs.len() > 0 {
        lemma_ext_nonneg(cs[0], font, m, size);
        lemma_ext_children_nonneg(cs.subrange(1, cs.len() as int), font, m, size);
    }
}

/// A successful layout's box is non-negative in both directions and stays
/// within the extent bounds, and it places exactly the ids of the subtree.
pub proof fn lemma_lay_bounds<C: Graphable>(
    n: TreeNode<C>,
    font: &C::Font,
    m: Margins,
    px: int,
    py: int,
    size: i64,
)
    requires
        margins_ok(m),
        sizes_ok(n, font, size),
    ensures
        ({
            let r = lay_node(n, font, m, px, py, size);
            r.err is None ==> {
                &&& 0 <= r.w <= ext_x(n, font, m, size)
                &&& 0 <= r.h <= ext_y(n, font, m, size)
                &&& r.map.dom() == crate::tree::id_set(n)
            }
        }),
    decreases n,
{
    let r = lay_node(n, font, m, px, py, size);
    if r.err is None {
        let td = measure_of(n, font, size)->0;
        let ix = m.inner_margins.x as int;
        let iy = m.inner_margins.y as int;
        let kids = lay_children(n.children@, font, m, px + ix, py + td.y + 2 * iy, size);
        lemma_lay_children_bounds(n.children@, font, m, px + ix, py + td.y + 2 * iy, size);
        lemma_ext_children_nonneg(n.children@, font, m, size);
        assert(r.map.dom() =~= crate::tree::id_set(n));
    }
}

/// The fold over siblings keeps its widest track and stacked height
/// non-negative and within the extent bounds, and places exactly the ids of
/// the sibling subtrees.
pub proof fn lemma_lay_children_bounds<C: Graphable>(
    cs: Seq<TreeNode<C>>,
    font: &C::Font,
    m: Margins,
    cx: int,
    cy: int,
    size: i64,
)
    requires
        margins_ok(m),
        sizes_ok_children(cs, font, size),
    ensures
        ({
            let k = lay_children(cs, font, m, cx, cy, size);
            k.err is None ==> {
                &&& 0 <= k.maxw <= ext_x_children(cs, font, m, size)
                &&& 0 <= k.sumh <= ext_y_children(cs, font, m, size)
                &&& k.map.dom() == crate::tree::children_id_set(cs)
            }
        }),
    decreases cs,
{
    let k = lay_children(cs, font, m, cx, cy, size);
    if cs.len() > 0 && k.err is None {
        let rest_cs = cs.subrange(1, cs.len() as int);
        let first = lay_node(cs[0], font, m, cx, cy, size);
        lemma_lay_bounds(cs[0], font, m, cx, cy, size);
        lemma_lay_children_bounds(
            rest_cs,
            font,
            m,
            cx,
            cy + first.h + m.outer_margins.y,
            size,
        );
        lemma_ext_nonneg(cs[0], font, m, size);
        lemma_ext_children_nonneg(rest_cs, font, m, size);
        assert(k.map.dom() =~= crate::tree::children_id_set(cs));
    }
}

} // verus!
