use tree_layout::content::FixedText;
use tree_layout::graph_layer_tree;
use tree_layout::rendered_node::{Margins, NodeElement};
use tree_layout::tree::{Tree, TreeNode};
use tree_layout::{LayoutError, Vec2};

fn label(
    id: u64,
    text: &str,
    w: i64,
    h: i64,
    links: Vec<u64>,
    children: Vec<TreeNode<FixedText>>,
) -> TreeNode<FixedText> {
    TreeNode {
        id,
        value: Some(FixedText {
            content: String::from(text),
            dimensions: Some(Vec2 { x: w, y: h }),
            links,
        }),
        children,
    }
}

fn margins(ix: i64, iy: i64, ox: i64, oy: i64) -> Margins {
    Margins {
        inner_margins: Vec2 { x: ix, y: iy },
        outer_margins: Vec2 { x: ox, y: oy },
    }
}

#[test]
fn two_children_scenario() {
    let tree = Tree {
        root: Some(label(
            1,
            "root",
            20,
            10,
            vec![],
            vec![
                label(2, "first", 20, 10, vec![], vec![]),
                label(3, "second", 20, 10, vec![], vec![]),
            ],
        )),
    };
    let m = margins(4, 4, 2, 2);
    let out = graph_layer_tree::<FixedText>(&(), tree, &m, Vec2 { x: 0, y: 0 }, 10).unwrap();
    assert_eq!(out.len(), 3);
    let root = out.get(&1).unwrap();
    let first = out.get(&2).unwrap();
    let second = out.get(&3).unwrap();
    // leaves measure (20,10), padded by the inner margin on every side
    assert_eq!(first.dimensions, Vec2 { x: 28, y: 18 });
    assert_eq!(second.dimensions, Vec2 { x: 28, y: 18 });
    // root width max(28, 28 + 2*2) = 32; height 18 + (18+2) + (18+2) = 58
    assert_eq!(root.dimensions, Vec2 { x: 32, y: 58 });
    assert_eq!(root.position, Vec2 { x: 0, y: 0 });
    // children indented by the inner margin, stacked below the root's text;
    // the cursor advances by each child's height plus the outer margin
    assert_eq!(first.position, Vec2 { x: 4, y: 18 });
    assert_eq!(second.position, Vec2 { x: 4, y: 38 });
}

#[test]
fn measurement_failure_fails_whole_layout() {
    let unmeasurable = TreeNode {
        id: 2,
        value: Some(FixedText {
            content: String::from("broken"),
            dimensions: None,
            links: vec![],
        }),
        children: vec![],
    };
    let tree = Tree {
        root: Some(label(1, "root", 20, 10, vec![], vec![unmeasurable])),
    };
    let m = margins(4, 4, 2, 2);
    let r = graph_layer_tree::<FixedText>(&(), tree, &m, Vec2 { x: 0, y: 0 }, 10);
    assert_eq!(r.unwrap_err(), LayoutError::TextMeasurementFailed);
}

#[test]
fn empty_tree_rejected() {
    let tree: Tree<FixedText> = Tree { root: None };
    let m = margins(4, 4, 2, 2);
    let r = graph_layer_tree::<FixedText>(&(), tree, &m, Vec2 { x: 0, y: 0 }, 10);
    assert_eq!(r.unwrap_err(), LayoutError::EmptyTree);
}

#[test]
fn empty_payload_rejected() {
    let empty = TreeNode {
        id: 2,
        value: None,
        children: vec![],
    };
    let tree = Tree {
        root: Some(label(1, "root", 20, 10, vec![], vec![empty])),
    };
    let m = margins(4, 4, 2, 2);
    let r = graph_layer_tree::<FixedText>(&(), tree, &m, Vec2 { x: 0, y: 0 }, 10);
    assert_eq!(r.unwrap_err(), LayoutError::EmptyNode);
}

#[test]
fn single_node_leaf_sizing() {
    let tree = Tree {
        root: Some(label(7, "only", 33, 11, vec![], vec![])),
    };
    let m = margins(5, 6, 9, 9);
    let out = graph_layer_tree::<FixedText>(&(), tree, &m, Vec2 { x: 0, y: 0 }, 12).unwrap();
    assert_eq!(out.len(), 1);
    let only = out.get(&7).unwrap();
    // exactly text size plus twice the inner margins; no outer contribution
    assert_eq!(only.dimensions, Vec2 { x: 43, y: 23 });
}

#[test]
fn element_shape() {
    let tree = Tree {
        root: Some(label(1, "hello", 20, 10, vec![], vec![])),
    };
    let m = margins(3, 2, 1, 1);
    let out = graph_layer_tree::<FixedText>(&(), tree, &m, Vec2 { x: 10, y: 20 }, 14).unwrap();
    let root = out.get(&1).unwrap();
    assert_eq!(root.node_elements.len(), 2);
    match &root.node_elements[0] {
        NodeElement::Path(rect) => {
            assert_eq!(rect.min, Vec2 { x: 10, y: 20 });
            assert_eq!(rect.max, Vec2 { x: 10 + 26, y: 20 + 14 });
        }
        NodeElement::Text(_) => panic!("first element must be the outline path"),
    }
    match &root.node_elements[1] {
        NodeElement::Text(text) => {
            assert_eq!(text.content, "hello");
            assert_eq!(text.dimensions, Vec2 { x: 20, y: 10 });
            assert_eq!(text.position, Vec2 { x: 13, y: 22 });
            assert_eq!(text.size, 14);
        }
        NodeElement::Path(_) => panic!("second element must be the text block"),
    }
}

#[test]
fn links_passed_through() {
    let tree = Tree {
        root: Some(label(
            1,
            "root",
            20,
            10,
            vec![9, 3, 9],
            vec![label(2, "child", 20, 10, vec![1], vec![])],
        )),
    };
    let m = margins(1, 1, 1, 1);
    let out = graph_layer_tree::<FixedText>(&(), tree, &m, Vec2 { x: 0, y: 0 }, 10).unwrap();
    assert_eq!(out.get(&1).unwrap().node_links, vec![9, 3, 9]);
    assert_eq!(out.get(&2).unwrap().node_links, vec![1]);
}

fn sample_tree() -> Tree<FixedText> {
    Tree {
        root: Some(label(
            1,
            "root",
            24,
            10,
            vec![5],
            vec![
                label(2, "a", 30, 8, vec![], vec![label(4, "aa", 12, 6, vec![], vec![])]),
                label(3, "b", 6, 4, vec![2], vec![]),
            ],
        )),
    }
}

#[test]
fn determinism_two_runs() {
    let m1 = margins(2, 2, 3, 3);
    let m2 = margins(2, 2, 3, 3);
    let out1 =
        graph_layer_tree::<FixedText>(&(), sample_tree(), &m1, Vec2 { x: 5, y: 6 }, 10).unwrap();
    let out2 =
        graph_layer_tree::<FixedText>(&(), sample_tree(), &m2, Vec2 { x: 5, y: 6 }, 10).unwrap();
    assert_eq!(out1.len(), out2.len());
    for (id, a) in &out1 {
        let b = out2.get(id).unwrap();
        assert_eq!(a.position, b.position);
        assert_eq!(a.dimensions, b.dimensions);
        assert_eq!(a.node_links, b.node_links);
        assert_eq!(a.node_elements.len(), b.node_elements.len());
        match (&a.node_elements[0], &b.node_elements[0]) {
            (NodeElement::Path(ra), NodeElement::Path(rb)) => assert_eq!(ra, rb),
            _ => panic!("first element must be the outline path in both runs"),
        }
        match (&a.node_elements[1], &b.node_elements[1]) {
            (NodeElement::Text(ta), NodeElement::Text(tb)) => {
                assert_eq!(ta.content, tb.content);
                assert_eq!(ta.dimensions, tb.dimensions);
                assert_eq!(ta.position, tb.position);
                assert_eq!(ta.size, tb.size);
            }
            _ => panic!("second element must be the text block in both runs"),
        }
    }
}

#[test]
fn width_folding_exact() {
    // a child track wider than the parent's own text drives the width
    let m = margins(2, 2, 3, 3);
    let out =
        graph_layer_tree::<FixedText>(&(), sample_tree(), &m, Vec2 { x: 0, y: 0 }, 10).unwrap();
    // leaf widths: b = 6+4 = 10; aa = 12+4 = 16
    assert_eq!(out.get(&3).unwrap().dimensions.x, 10);
    assert_eq!(out.get(&4).unwrap().dimensions.x, 16);
    // a: max(30+4, 16+6) = 34
    assert_eq!(out.get(&2).unwrap().dimensions.x, 34);
    // root: max(24+4, 34+6, 10+6) = 40
    assert_eq!(out.get(&1).unwrap().dimensions.x, 40);
}

#[test]
fn height_folding_exact() {
    let m = margins(2, 2, 3, 3);
    let out =
        graph_layer_tree::<FixedText>(&(), sample_tree(), &m, Vec2 { x: 0, y: 0 }, 10).unwrap();
    // leaves: aa = 6+4 = 10; b = 4+4 = 8
    assert_eq!(out.get(&4).unwrap().dimensions.y, 10);
    assert_eq!(out.get(&3).unwrap().dimensions.y, 8);
    // a: 8+4 + (10+3) = 25
    assert_eq!(out.get(&2).unwrap().dimensions.y, 25);
    // root: 10+4 + (25+3) + (8+3) = 53
    assert_eq!(out.get(&1).unwrap().dimensions.y, 53);
}

#[test]
fn nonzero_origin_shifts_everything() {
    let m = margins(2, 2, 3, 3);
    let base =
        graph_layer_tree::<FixedText>(&(), sample_tree(), &m, Vec2 { x: 0, y: 0 }, 10).unwrap();
    let moved =
        graph_layer_tree::<FixedText>(&(), sample_tree(), &m, Vec2 { x: 100, y: -50 }, 10)
            .unwrap();
    for (id, a) in &base {
        let b = moved.get(id).unwrap();
        assert_eq!(b.position.x, a.position.x + 100);
        assert_eq!(b.position.y, a.position.y - 50);
        assert_eq!(b.dimensions, a.dimensions);
    }
}

#[test]
fn children_contained_in_root() {
    // inner margins within the containment bounds: x <= 2*outer.x, y <= outer.y
    let m = margins(2, 2, 3, 3);
    let out =
        graph_layer_tree::<FixedText>(&(), sample_tree(), &m, Vec2 { x: 0, y: 0 }, 10).unwrap();
    let root = out.get(&1).unwrap();
    for (_, node) in &out {
        assert!(root.position.x <= node.position.x);
        assert!(root.position.y <= node.position.y);
        assert!(node.position.x + node.dimensions.x <= root.position.x + root.dimensions.x);
        assert!(node.position.y + node.dimensions.y <= root.position.y + root.dimensions.y);
    }
}
