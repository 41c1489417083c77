use vstd::prelude::*;

use crate::model::{
    lay_children, lay_node, margins_ok, measure_of, node_matches, sizes_ok, sizes_ok_children,
    Placed,
};
use crate::rendered_node::{Margins, NodeElement, RenderedNode};
use crate::tree::{children_id_set, children_ids_ok, id_set, ids_ok, TreeNode};
use crate::{Graphable, LayoutError};

verus! {

/// Id completeness: a successful layout places exactly the ids reachable
/// from the layout root — no extras, no omissions.
pub proof fn lemma_id_completeness<C: Graphable>(
    n: TreeNode<C>,
    font: &C::Font,
    m: Margins,
    px: int,
    py: int,
    size: i64,
)
    requires
        margins_ok(m),
        sizes_ok(n, font, size),
        lay_node(n, font, m, px, py, size).err is None,
    ensures
        lay_node(n, font, m, px, py, size).map.dom() == id_set(n),
{
    crate::model::lemma_lay_bounds(n, font, m, px, py, size);
}

/// Leaf sizing: a leaf's box is exactly its measured text size padded by
/// the inner margins on every side, with no outer-margin contribution.
pub proof fn lemma_leaf_sizing<C: Graphable>(
    n: TreeNode<C>,
    font: &C::Font,
    m: Margins,
    px: int,
    py: int,
    size: i64,
)
    requires
        margins_ok(m),
        sizes_ok(n, font, size),
        n.children@.len() == 0,
        lay_node(n, font, m, px, py, size).err is None,
    ensures
        lay_node(n, font, m, px, py, size).w == measure_of(n, font, size)->0.x + 2
            * m.inner_margins.x,
        lay_node(n, font, m, px, py, size).h == measure_of(n, font, size)->0.y + 2
            * m.inner_margins.y,
{
}

/// Determinism: two rendered maps that both realize the same model
/// placements agree on everything the model pins down — same key set and,
/// per node, the same position, box, links, element count, the same outline
/// rectangle and the same text block fields (the opaque font value aside).
pub proof fn lemma_determinism<F>(
    m1: Map<u64, RenderedNode<F>>,
    m2: Map<u64, RenderedNode<F>>,
    p: Map<u64, Placed>,
    m: Margins,
    size: i64,
)
    requires
        forall|id: u64|
            p.dom().contains(id) ==> node_matches(#[trigger] m1[id], p[id], m, size)
                && node_matches(#[trigger] m2[id], p[id], m, size),
    ensures
        forall|id: u64|
            p.dom().contains(id) ==> {
                &&& (#[trigger] m1[id]).position == m2[id].position
                &&& m1[id].dimensions == m2[id].dimensions
                &&& m1[id].node_links@ == m2[id].node_links@
                &&& m1[id].node_elements@.len() == m2[id].node_elements@.len()
                &&& m1[id].node_elements@[0] == m2[id].node_elements@[0]
                &&& (m1[id].node_elements@[1] matches NodeElement::Text(t1)
                    && m2[id].node_elements@[1] matches NodeElement::Text(t2) ==> {
                    &&& t1.content@ == t2.content@
                    &&& t1.dimensions == t2.dimensions
                    &&& t1.position == t2.position
                    &&& t1.size == t2.size
                })
            },
{
}

/// Every sibling subtree's root id lies in the sibling id set.
proof fn lemma_child_ids_in_set<C>(cs: Seq<TreeNode<C>>)
    ensures
        forall|i: int|
            0 <= i < cs.len() ==> children_id_set(cs).contains((#[trigger] cs[i]).id),
    decreases cs,
{
    if cs.len() > 0 {
        let rest = cs.subrange(1, cs.len() as int);
        lemma_child_ids_in_set(rest);
        assert(id_set(cs[0]).contains(cs[0].id));
        assert forall|i: int|
            1 <= i < cs.len() implies children_id_set(cs).contains((#[trigger] cs[i]).id) by {
            assert(rest[i - 1] == cs[i]);
            assert(children_id_set(rest).contains(cs[i].id));
        }
    }
}

/// The total height of a run of stacked children as read off a result map:
/// each child's box height plus one outer margin.
pub open spec fn stacked_heights<C>(cs: Seq<TreeNode<C>>, map: Map<u64, Placed>, oy: int) -> int
    decreases cs,
{
    if cs.len() == 0 {
        0
    } else {
        map[cs[0].id].h + oy + stacked_heights(cs.subrange(1, cs.len() as int), map, oy)
    }
}

/// Two maps that agree on the sibling roots' entries stack to the same
/// height.
proof fn lemma_stacked_agree<C>(
    cs: Seq<TreeNode<C>>,
    m1: Map<u64, Placed>,
    m2: Map<u64, Placed>,
    oy: int,
)
    requires
        forall|i: int| 0 <= i < cs.len() ==> m1[(#[trigger] cs[i]).id] == m2[cs[i].id],
    ensures
        stacked_heights(cs, m1, oy) == stacked_heights(cs, m2, oy),
    decreases cs,
{
    if cs.len() > 0 {
        let rest = cs.subrange(1, cs.len() as int);
        assert forall|i: int| 0 <= i < rest.len() implies m1[(#[trigger] rest[i]).id]
            == m2[rest[i].id] by {
            assert(rest[i] == cs[i + 1]);
        }
        lemma_stacked_agree(rest, m1, m2, oy);
    }
}

/// How the sibling fold relates to the entries it places: every sibling
/// root is in the map; the fold's widest track dominates every child width
/// plus twice the outer margin (and is one of them, or zero); the fold's
/// stacked height is the sum read off the map.
proof fn lemma_children_fold<C: Graphable>(
    cs: Seq<TreeNode<C>>,
    font: &C::Font,
    m: Margins,
    cx: int,
    cy: int,
    size: i64,
)
    requires
        margins_ok(m),
        sizes_ok_children(cs, font, size),
        children_ids_ok(cs),
        lay_children(cs, font, m, cx, cy, size).err is None,
    ensures
        ({
            let k = lay_children(cs, font, m, cx, cy, size);
            &&& (forall|i: int|
                0 <= i < cs.len() ==> k.map.dom().contains((#[trigger] cs[i]).id)
                    && k.map[cs[i].id].w + 2 * m.outer_margins.x <= k.maxw)
            &&& (cs.len() == 0 ==> k.maxw == 0)
            &&& (cs.len() > 0 ==> exists|i: int|
                0 <= i < cs.len() && k.maxw == k.map[(#[trigger] cs[i]).id].w + 2
                    * m.outer_margins.x)
            &&& k.sumh == stacked_heights(cs, k.map, m.outer_margins.y as int)
        }),
    decreases cs,
{
    let k = lay_children(cs, font, m, cx, cy, size);
    if cs.len() > 0 {
        let rest_cs = cs.subrange(1, cs.len() as int);
        let first = lay_node(cs[0], font, m, cx, cy, size);
        let cy2 = cy + first.h + m.outer_margins.y;
        let rest = lay_children(rest_cs, font, m, cx, cy2, size);
        crate::model::lemma_lay_bounds(cs[0], font, m, cx, cy, size);
        crate::model::lemma_lay_children_bounds(rest_cs, font, m, cx, cy2, size);
        lemma_children_fold(rest_cs, font, m, cx, cy2, size);
        lemma_child_ids_in_set(rest_cs);
        assert(id_set(cs[0]).contains(cs[0].id));
        assert(!rest.map.dom().contains(cs[0].id));
        assert(k.map[cs[0].id] == first.map[cs[0].id]);
        assert(first.map[cs[0].id].w == first.w);
        assert(first.map[cs[0].id].h == first.h);
        assert forall|i: int|
            1 <= i < cs.len() implies k.map.dom().contains((#[trigger] cs[i]).id)
                && k.map[cs[i].id].w + 2 * m.outer_margins.x <= k.maxw by {
            assert(rest_cs[i - 1] == cs[i]);
            assert(rest.map.dom().contains(cs[i].id));
            assert(k.map[cs[i].id] == rest.map[cs[i].id]);
        }
        // the widest track is attained by some child
        if k.maxw == first.w + 2 * m.outer_margins.x {
            assert(k.maxw == k.map[cs[0].id].w + 2 * m.outer_margins.x);
        } else {
            assert(k.maxw == rest.maxw);
            assert(rest_cs.len() > 0);
            let j = choose|j: int|
                0 <= j < rest_cs.len() && rest.maxw == rest.map[(#[trigger] rest_cs[j]).id].w + 2
                    * m.outer_margins.x;
            assert(rest_cs[j] == cs[j + 1]);
            assert(k.map[cs[j + 1].id] == rest.map[cs[j + 1].id]);
            assert(k.maxw == k.map[cs[j + 1].id].w + 2 * m.outer_margins.x);
        }
        // stacked height read off the merged map
        assert forall|i: int| 0 <= i < rest_cs.len() implies k.map[(#[trigger] rest_cs[i]).id]
            == rest.map[rest_cs[i].id] by {
            assert(children_id_set(rest_cs).contains(rest_cs[i].id));
            assert(rest.map.dom().contains(rest_cs[i].id));
        }
        lemma_stacked_agree(rest_cs, k.map, rest.map, m.outer_margins.y as int);
    }
}

/// Width folding: a parent's width is the larger of its own text width plus
/// twice the inner margin and the widest child width plus twice the outer
/// margin — it dominates both, and is attained by one of them.
pub proof fn lemma_width_folding<C: Graphable>(
    n: TreeNode<C>,
    font: &C::Font,
    m: Margins,
    px: int,
    py: int,
    size: i64,
)
    requires
        margins_ok(m),
        sizes_ok(n, font, size),
        ids_ok(n),
        lay_node(n, font, m, px, py, size).err is None,
    ensures
        ({
            let r = lay_node(n, font, m, px, py, size);
            let base = measure_of(n, font, size)->0.x + 2 * m.inner_margins.x;
            &&& r.w >= base
            &&& (forall|i: int|
                0 <= i < n.children@.len() ==> r.map.dom().contains((#[trigger] n.children@[i]).id)
                    && r.map[n.children@[i].id].w + 2 * m.outer_margins.x <= r.w)
            &&& (r.w == base || exists|i: int|
                0 <= i < n.children@.len() && r.w == r.map[(#[trigger] n.children@[i]).id].w + 2
                    * m.outer_margins.x)
        }),
{
    let r = lay_node(n, font, m, px, py, size);
    let cs = n.children@;
    let td = measure_of(n, font, size)->0;
    let cx = px + m.inner_margins.x;
    let cy = py + td.y + 2 * m.inner_margins.y;
    let kids = lay_children(cs, font, m, cx, cy, size);
    lemma_children_fold(cs, font, m, cx, cy, size);
    crate::model::lemma_lay_children_bounds(cs, font, m, cx, cy, size);
    lemma_child_ids_in_set(cs);
    assert forall|i: int| 0 <= i < cs.len() implies r.map[(#[trigger] cs[i]).id]
        == kids.map[cs[i].id] by {
        assert(children_id_set(cs).contains(cs[i].id));
    }
    if r.w != td.x + 2 * m.inner_margins.x {
        assert(r.w == kids.maxw);
        assert(cs.len() > 0);
        let j = choose|j: int|
            0 <= j < cs.len() && kids.maxw == kids.map[(#[trigger] cs[j]).id].w + 2
                * m.outer_margins.x;
        assert(r.w == r.map[cs[j].id].w + 2 * m.outer_margins.x);
    }
}

/// Height folding: a parent's height is its own text height plus twice the
/// inner margin, plus — for each child, in order — the child's height plus
/// one outer margin.
pub proof fn lemma_height_folding<C: Graphable>(
    n: TreeNode<C>,
    font: &C::Font,
    m: Margins,
    px: int,
    py: int,
    size: i64,
)
    requires
        margins_ok(m),
        sizes_ok(n, font, size),
        ids_ok(n),
        lay_node(n, font, m, px, py, size).err is None,
    ensures
        ({
            let r = lay_node(n, font, m, px, py, size);
            r.h == measure_of(n, font, size)->0.y + 2 * m.inner_margins.y + stacked_heights(
                n.children@,
                r.map,
                m.outer_margins.y as int,
            )
        }),
{
    let r = lay_node(n, font, m, px, py, size);
    let cs = n.children@;
    let td = measure_of(n, font, size)->0;
    let cx = px + m.inner_margins.x;
    let cy = py + td.y + 2 * m.inner_margins.y;
    let kids = lay_children(cs, font, m, cx, cy, size);
    lemma_children_fold(cs, font, m, cx, cy, size);
    crate::model::lemma_lay_children_bounds(cs, font, m, cx, cy, size);
    lemma_child_ids_in_set(cs);
    assert forall|i: int| 0 <= i < cs.len() implies r.map[(#[trigger] cs[i]).id]
        == kids.map[cs[i].id] by {
        assert(children_id_set(cs).contains(cs[i].id));
    }
    lemma_stacked_agree(cs, r.map, kids.map, m.outer_margins.y as int);
}

/// Containment: when the horizontal inner margin is at most twice the
/// horizontal outer margin, every rectangle a successful layout places —
/// the root's own and every descendant's — lies inside the layout root's
/// rectangle. Vertically this needs no condition: stacked siblings advance
/// by their height plus the outer margin, exactly what the parent's height
/// accounts for.
pub proof fn lemma_containment<C: Graphable>(
    n: TreeNode<C>,
    font: &C::Font,
    m: Margins,
    px: int,
    py: int,
    size: i64,
)
    requires
        margins_ok(m),
        sizes_ok(n, font, size),
        m.inner_margins.x <= 2 * m.outer_margins.x,
        lay_node(n, font, m, px, py, size).err is None,
    ensures
        ({
            let r = lay_node(n, font, m, px, py, size);
            forall|id: u64|
                r.map.dom().contains(id) ==> {
                    &&& px <= (#[trigger] r.map[id]).px
                    &&& r.map[id].px + r.map[id].w <= px + r.w
                    &&& py <= r.map[id].py
                    &&& r.map[id].py + r.map[id].h <= py + r.h
                }
        }),
    decreases n,
{
    let r = lay_node(n, font, m, px, py, size);
    let cs = n.children@;
    let td = measure_of(n, font, size)->0;
    let cx = px + m.inner_margins.x;
    let cy = py + td.y + 2 * m.inner_margins.y;
    let kids = lay_children(cs, font, m, cx, cy, size);
    lemma_containment_children(cs, font, m, cx, cy, size);
    crate::model::lemma_lay_children_bounds(cs, font, m, cx, cy, size);
    assert forall|id: u64| r.map.dom().contains(id) implies {
        &&& px <= (#[trigger] r.map[id]).px
        &&& r.map[id].px + r.map[id].w <= px + r.w
        &&& py <= r.map[id].py
        &&& r.map[id].py + r.map[id].h <= py + r.h
    } by {
        if id != n.id {
            assert(kids.map.dom().contains(id));
            assert(r.map[id] == kids.map[id]);
        }
    }
}

/// Containment over a run of stacked siblings: every placed rectangle stays
/// right of the stacking column, within the widest track less its outer
/// margins, below the cursor, and above the stacked height less one outer
/// margin.
proof fn lemma_containment_children<C: Graphable>(
    cs: Seq<TreeNode<C>>,
    font: &C::Font,
    m: Margins,
    cx: int,
    cy: int,
    size: i64,
)
    requires
        margins_ok(m),
        sizes_ok_children(cs, font, size),
        m.inner_margins.x <= 2 * m.outer_margins.x,
        lay_children(cs, font, m, cx, cy, size).err is None,
    ensures
        ({
            let k = lay_children(cs, font, m, cx, cy, size);
            forall|id: u64|
                k.map.dom().contains(id) ==> {
                    &&& cx <= (#[trigger] k.map[id]).px
                    &&& k.map[id].px + k.map[id].w + 2 * m.outer_margins.x <= cx + k.maxw
                    &&& cy <= k.map[id].py
                    &&& k.map[id].py + k.map[id].h + m.outer_margins.y <= cy + k.sumh
                }
        }),
    decreases cs,
{
    let k = lay_children(cs, font, m, cx, cy, size);
    if cs.len() > 0 {
        let rest_cs = cs.subrange(1, cs.len() as int);
        let first = lay_node(cs[0], font, m, cx, cy, size);
        let cy2 = cy + first.h + m.outer_margins.y;
        let rest = lay_children(rest_cs, font, m, cx, cy2, size);
        crate::model::lemma_lay_bounds(cs[0], font, m, cx, cy, size);
        crate::model::lemma_lay_children_bounds(rest_cs, font, m, cx, cy2, size);
        lemma_containment(cs[0], font, m, cx, cy, size);
        lemma_containment_children(rest_cs, font, m, cx, cy2, size);
        assert forall|id: u64| k.map.dom().contains(id) implies {
            &&& cx <= (#[trigger] k.map[id]).px
            &&& k.map[id].px + k.map[id].w + 2 * m.outer_margins.x <= cx + k.maxw
            &&& cy <= k.map[id].py
            &&& k.map[id].py + k.map[id].h + m.outer_margins.y <= cy + k.sumh
        } by {
            if rest.map.dom().contains(id) {
                assert(k.map[id] == rest.map[id]);
            } else {
                assert(first.map.dom().contains(id));
                assert(k.map[id] == first.map[id]);
            }
        }
    }
}

/// The subtree of `n` rooted at the node with the given id, if any; the
/// first match in depth-first order.
pub open spec fn find_node<C>(n: TreeNode<C>, id: u64) -> Option<TreeNode<C>>
    decreases n,
{
    if n.id == id {
        Some(n)
    } else {
        find_children(n.children@, id)
    }
}

/// The subtree lookup over a run of sibling subtrees.
pub open spec fn find_children<C>(cs: Seq<TreeNode<C>>, id: u64) -> Option<TreeNode<C>>
    decreases cs,
{
    if cs.len() == 0 {
        None
    } else {
        match find_node(cs[0], id) {
            Some(x) => Some(x),
            None => find_children(cs.subrange(1, cs.len() as int), id),
        }
    }
}

/// A lookup succeeds exactly on the reachable ids, returns the node that
/// carries the id, and never leaves the id set it searched.
proof fn lemma_find_props<C>(n: TreeNode<C>, id: u64)
    ensures
        find_node(n, id) is Some <==> id_set(n).contains(id),
        find_node(n, id) matches Some(x) ==> x.id == id && id_set(x).subset_of(id_set(n)),
    decreases n,
{
    lemma_find_props_children(n.children@, id);
}

/// `lemma_find_props` over a run of sibling subtrees.
proof fn lemma_find_props_children<C>(cs: Seq<TreeNode<C>>, id: u64)
    ensures
        find_children(cs, id) is Some <==> children_id_set(cs).contains(id),
        find_children(cs, id) matches Some(x) ==> x.id == id && id_set(x).subset_of(
            children_id_set(cs),
        ),
    decreases cs,
{
    if cs.len() > 0 {
        lemma_find_props(cs[0], id);
        lemma_find_props_children(cs.subrange(1, cs.len() as int), id);
    }
}

/// Self-similarity of a successful layout: the entries it places for the
/// ids of any reachable subtree are exactly the entries that laying out
/// that subtree on its own, at the position the full layout gave it, would
/// place.
pub proof fn lemma_sublayout<C: Graphable>(
    n: TreeNode<C>,
    font: &C::Font,
    m: Margins,
    px: int,
    py: int,
    size: i64,
    id: u64,
)
    requires
        margins_ok(m),
        sizes_ok(n, font, size),
        ids_ok(n),
        lay_node(n, font, m, px, py, size).err is None,
        lay_node(n, font, m, px, py, size).map.dom().contains(id),
    ensures
        ({
            let r = lay_node(n, font, m, px, py, size);
            let sub = find_node(n, id);
            &&& sub is Some
            &&& sizes_ok(sub->0, font, size)
            &&& ids_ok(sub->0)
            &&& ({
                let rs = lay_node(sub->0, font, m, r.map[id].px, r.map[id].py, size);
                &&& rs.err is None
                &&& rs.map.dom() == id_set(sub->0)
                &&& forall|id2: u64|
                    #[trigger] rs.map.dom().contains(id2) ==> r.map[id2] == rs.map[id2]
            })
        }),
    decreases n,
{
    let r = lay_node(n, font, m, px, py, size);
    let cs = n.children@;
    let td = measure_of(n, font, size)->0;
    let cx = px + m.inner_margins.x;
    let cy = py + td.y + 2 * m.inner_margins.y;
    let kids = lay_children(cs, font, m, cx, cy, size);
    crate::model::lemma_lay_bounds(n, font, m, px, py, size);
    crate::model::lemma_lay_children_bounds(cs, font, m, cx, cy, size);
    if id == n.id {
        assert(r.map[id].px == px);
        assert(r.map[id].py == py);
    } else {
        assert(kids.map.dom().contains(id));
        lemma_sublayout_children(cs, font, m, cx, cy, size, id);
        let sub = find_children(cs, id);
        lemma_find_props_children(cs, id);
        let rs = lay_node(sub->0, font, m, kids.map[id].px, kids.map[id].py, size);
        assert(r.map[id] == kids.map[id]);
        assert forall|id2: u64| #[trigger] rs.map.dom().contains(id2) implies r.map[id2]
            == rs.map[id2] by {
            assert(id_set(sub->0).contains(id2));
            assert(children_id_set(cs).contains(id2));
            assert(kids.map[id2] == rs.map[id2]);
            assert(id2 != n.id);
        }
    }
}

/// `lemma_sublayout` over a run of stacked siblings.
proof fn lemma_sublayout_children<C: Graphable>(
    cs: Seq<TreeNode<C>>,
    font: &C::Font,
    m: Margins,
    cx: int,
    cy: int,
    size: i64,
    id: u64,
)
    requires
        margins_ok(m),
        sizes_ok_children(cs, font, size),
        children_ids_ok(cs),
        lay_children(cs, font, m, cx, cy, size).err is None,
        lay_children(cs, font, m, cx, cy, size).map.dom().contains(id),
    ensures
        ({
            let k = lay_children(cs, font, m, cx, cy, size);
            let sub = find_children(cs, id);
            &&& sub is Some
            &&& sizes_ok(sub->0, font, size)
            &&& ids_ok(sub->0)
            &&& ({
                let rs = lay_node(sub->0, font, m, k.map[id].px, k.map[id].py, size);
                &&& rs.err is None
                &&& rs.map.dom() == id_set(sub->0)
                &&& forall|id2: u64|
                    #[trigger] rs.map.dom().contains(id2) ==> k.map[id2] == rs.map[id2]
            })
        }),
    decreases cs,
{
    let k = lay_children(cs, font, m, cx, cy, size);
    let rest_cs = cs.subrange(1, cs.len() as int);
    let first = lay_node(cs[0], font, m, cx, cy, size);
    let cy2 = cy + first.h + m.outer_margins.y;
    let rest = lay_children(rest_cs, font, m, cx, cy2, size);
    crate::model::lemma_lay_bounds(cs[0], font, m, cx, cy, size);
    crate::model::lemma_lay_children_bounds(rest_cs, font, m, cx, cy2, size);
    lemma_find_props(cs[0], id);
    lemma_find_props_children(rest_cs, id);
    if first.map.dom().contains(id) {
        lemma_sublayout(cs[0], font, m, cx, cy, size, id);
        let sub = find_node(cs[0], id);
        let rs = lay_node(sub->0, font, m, first.map[id].px, first.map[id].py, size);
        assert(!rest.map.dom().contains(id));
        assert(k.map[id] == first.map[id]);
        assert forall|id2: u64| #[trigger] rs.map.dom().contains(id2) implies k.map[id2]
            == rs.map[id2] by {
            assert(id_set(sub->0).contains(id2));
            assert(id_set(cs[0]).contains(id2));
            assert(!rest.map.dom().contains(id2));
            assert(k.map[id2] == first.map[id2]);
        }
    } else {
        assert(rest.map.dom().contains(id));
        lemma_sublayout_children(rest_cs, font, m, cx, cy2, size, id);
        let sub = find_children(rest_cs, id);
        assert(find_node(cs[0], id) is None);
        assert(find_children(cs, id) == sub);
        let rs = lay_node(sub->0, font, m, rest.map[id].px, rest.map[id].py, size);
        assert(k.map[id] == rest.map[id]);
        assert forall|id2: u64| #[trigger] rs.map.dom().contains(id2) implies k.map[id2]
            == rs.map[id2] by {
            assert(id_set(sub->0).contains(id2));
            assert(children_id_set(rest_cs).contains(id2));
            assert(k.map[id2] == rest.map[id2]);
        }
    }
}

/// Containment, in full: under the margin bounds of `lemma_containment`,
/// every node's rectangle in a successful layout contains the rectangle of
/// every node reachable from it — its own and all of its descendants' — as
/// placed in the same result. `id1` names the ancestor, `id2` a node of the
/// subtree rooted at `id1`.
pub proof fn lemma_containment_all<C: Graphable>(
    n: TreeNode<C>,
    font: &C::Font,
    m: Margins,
    px: int,
    py: int,
    size: i64,
    id1: u64,
    id2: u64,
)
    requires
        margins_ok(m),
        sizes_ok(n, font, size),
        ids_ok(n),
        m.inner_margins.x <= 2 * m.outer_margins.x,
        lay_node(n, font, m, px, py, size).err is None,
        lay_node(n, font, m, px, py, size).map.dom().contains(id1),
        id_set(find_node(n, id1)->0).contains(id2),
    ensures
        ({
            let r = lay_node(n, font, m, px, py, size);
            &&& r.map.dom().contains(id2)
            &&& r.map[id1].px <= r.map[id2].px
            &&& r.map[id2].px + r.map[id2].w <= r.map[id1].px + r.map[id1].w
            &&& r.map[id1].py <= r.map[id2].py
            &&& r.map[id2].py + r.map[id2].h <= r.map[id1].py + r.map[id1].h
        }),
{
    let r = lay_node(n, font, m, px, py, size);
    crate::model::lemma_lay_bounds(n, font, m, px, py, size);
    lemma_sublayout(n, font, m, px, py, size, id1);
    lemma_find_props(n, id1);
    let sub = find_node(n, id1)->0;
    let rs = lay_node(sub, font, m, r.map[id1].px, r.map[id1].py, size);
    lemma_containment(sub, font, m, r.map[id1].px, r.map[id1].py, size);
    assert(rs.map.dom().contains(id2));
    assert(r.map[id2] == rs.map[id2]);
    assert(rs.map.dom().contains(id1));
    assert(r.map[id1] == rs.map[id1]);
    assert(rs.map[id1].w == rs.w);
    assert(rs.map[id1].h == rs.h);
}

/// Every node of the subtree carries a payload.
pub open spec fn has_values<C>(n: TreeNode<C>) -> bool
    decreases n,
{
    n.value is Some && has_values_children(n.children@)
}

/// `has_values` over a run of sibling subtrees.
pub open spec fn has_values_children<C>(cs: Seq<TreeNode<C>>) -> bool
    decreases cs,
{
    if cs.len() == 0 {
        true
    } else {
        has_values(cs[0]) && has_values_children(cs.subrange(1, cs.len() as int))
    }
}

/// Some node of the subtree carries a payload that cannot be measured under
/// the given font and text size.
pub open spec fn some_unmeasurable<C: Graphable>(
    n: TreeNode<C>,
    font: &C::Font,
    size: i64,
) -> bool
    decreases n,
{
    ||| (n.value is Some && n.value->0.spec_measure(font, None, None, size) is None)
    ||| some_unmeasurable_children(n.children@, font, size)
}

/// `some_unmeasurable` over a run of sibling subtrees.
pub open spec fn some_unmeasurable_children<C: Graphable>(
    cs: Seq<TreeNode<C>>,
    font: &C::Font,
    size: i64,
) -> bool
    decreases cs,
{
    if cs.len() == 0 {
        false
    } else {
        some_unmeasurable(cs[0], font, size) || some_unmeasurable_children(
            cs.subrange(1, cs.len() as int),
            font,
            size,
        )
    }
}

/// Measurement failure: when every node carries a payload, a layout fails
/// exactly when some payload cannot be measured, and then the failure is
/// `TextMeasurementFailed` — whatever the placement arguments.
pub proof fn lemma_measurement_failure<C: Graphable>(
    n: TreeNode<C>,
    font: &C::Font,
    m: Margins,
    px: int,
    py: int,
    size: i64,
)
    requires
        has_values(n),
    ensures
        lay_node(n, font, m, px, py, size).err is Some <==> some_unmeasurable(n, font, size),
        some_unmeasurable(n, font, size) ==> lay_node(n, font, m, px, py, size).err == Some(
            LayoutError::TextMeasurementFailed,
        ),
    decreases n,
{
    if n.value->0.spec_measure(font, None, None, size) is Some {
        let td = measure_of(n, font, size)->0;
        let th = td.y as int;
        let iy = m.inner_margins.y as int;
        lemma_measurement_failure_children(
            n.children@,
            font,
            m,
            px + m.inner_margins.x as int,
            py + th + 2 * iy,
            size,
        );
    }
}

/// `lemma_measurement_failure` over a run of stacked siblings.
proof fn lemma_measurement_failure_children<C: Graphable>(
    cs: Seq<TreeNode<C>>,
    font: &C::Font,
    m: Margins,
    cx: int,
    cy: int,
    size: i64,
)
    requires
        has_values_children(cs),
    ensures
        lay_children(cs, font, m, cx, cy, size).err is Some <==> some_unmeasurable_children(
            cs,
            font,
            size,
        ),
        some_unmeasurable_children(cs, font, size) ==> lay_children(
            cs,
            font,
            m,
            cx,
            cy,
            size,
        ).err == Some(LayoutError::TextMeasurementFailed),
    decreases cs,
{
    if cs.len() > 0 {
        let first = lay_node(cs[0], font, m, cx, cy, size);
        lemma_measurement_failure(cs[0], font, m, cx, cy, size);
        if first.err is None {
            lemma_measurement_failure_children(
                cs.subrange(1, cs.len() as int),
                font,
                m,
                cx,
                cy + first.h + m.outer_margins.y,
                size,
            );
        }
    }
}

} // verus!
