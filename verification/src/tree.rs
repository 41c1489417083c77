use vstd::prelude::*;

verus! {

/// One node of the input tree: its id, its payload (`None` for a node that
/// carries no value), and its child subtrees in their stacking order.
pub struct TreeNode<C> {
    pub id: u64,
    pub value: Option<C>,
    pub children: Vec<TreeNode<C>>,
}

/// A tree snapshot handed to the layout engine. `root: None` is the empty
/// tree, which the entry point rejects.
pub struct Tree<C> {
    pub root: Option<TreeNode<C>>,
}

/// The set of node ids reachable from `n`, the node itself included.
pub open spec fn id_set<C>(n: TreeNode<C>) -> Set<u64>
    decreases n,
{
    children_id_set(n.children@).insert(n.id)
}

/// The set of node ids reachable from any node of `cs`.
pub open spec fn children_id_set<C>(cs: Seq<TreeNode<C>>) -> Set<u64>
    decreases cs,
{
    if cs.len() == 0 {
        Set::empty()
    } else {
        id_set(cs[0]).union(children_id_set(cs.subrange(1, cs.len() as int)))
    }
}

/// Ids are unique within the subtree rooted at `n`: the node's own id occurs
/// in no child subtree, and the child subtrees neither repeat ids internally
/// nor share any id with one another.
pub open spec fn ids_ok<C>(n: TreeNode<C>) -> bool
    decreases n,
{
    &&& !children_id_set(n.children@).contains(n.id)
    &&& children_ids_ok(n.children@)
}

/// Id uniqueness across a sequence of sibling subtrees.
pub open spec fn children_ids_ok<C>(cs: Seq<TreeNode<C>>) -> bool
    decreases cs,
{
    if cs.len() == 0 {
        true
    } else {
        &&& ids_ok(cs[0])
        &&& children_ids_ok(cs.subrange(1, cs.len() as int))
        &&& id_set(cs[0]).disjoint(children_id_set(cs.subrange(1, cs.len() as int)))
    }
}

/// The height of the subtree rooted at `n`: one more than the tallest child.
pub open spec fn tree_depth<C>(n: TreeNode<C>) -> int
    decreases n,
{
    1 + children_depth(n.children@)
}

/// The tallest height among the subtrees of `cs` (zero when there are none).
pub open spec fn children_depth<C>(cs: Seq<TreeNode<C>>) -> int
    decreases cs,
{
    if cs.len() == 0 {
        0
    } else {
        vstd::math::max(tree_depth(cs[0]), children_depth(cs.subrange(1, cs.len() as int)))
    }
}

/// Every subtree is at least one level tall.
pub proof fn lemma_tree_depth_pos<C>(n: TreeNode<C>)
    ensures
        tree_depth(n) >= 1,
    decreases n,
{
    lemma_children_depth_nonneg(n.children@);
}

/// The tallest height among sibling subtrees is never negative.
pub proof fn lemma_children_depth_nonneg<C>(cs: Seq<TreeNode<C>>)
    ensures
        children_depth(cs) >= 0,
    decreases cs,
{
    if cs.len() > 0 {
        lemma_tree_depth_pos(cs[0]);
        lemma_children_depth_nonneg(cs.subrange(1, cs.len() as int));
    }
}

} // verus!
