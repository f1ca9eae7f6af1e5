//! The in-memory reconstruction of the cleartext namespace: a tagged tree with
//! owned child lists, built fresh per query and never mutated in place, and
//! the pure operations over it — deep copy, flattening to path lists, and
//! textual rendering.

use vstd::prelude::*;
use vstd::string::StringExecFns;

verus! {

/// One node of the cleartext namespace: a leaf (an entry) or an inner node (a
/// directory) with an ordered list of children. Ownership is strictly
/// hierarchical, so no cycles are representable.
#[derive(Debug)]
pub enum TreeNode {
    Node(String, Vec<TreeNode>),
    Leaf(String),
}

/// The mathematical shape of a tree: the same structure with names as
/// character sequences. All tree contracts are stated over this view.
pub enum TreeShape {
    Node(Seq<char>, Seq<TreeShape>),
    Leaf(Seq<char>),
}

impl TreeShape {
    /// The name carried at the root of this shape.
    pub open spec fn name(self) -> Seq<char> {
        match self {
            TreeShape::Node(s, _) => s,
            TreeShape::Leaf(s) => s,
        }
    }
}

/// The shape of a tree node.
pub open spec fn tree_view(t: TreeNode) -> TreeShape
    decreases t,
{
    match t {
        TreeNode::Leaf(s) => TreeShape::Leaf(s@),
        TreeNode::Node(s, children) => TreeShape::Node(s@, forest_view(children@)),
    }
}

/// The shapes of a list of tree nodes, in order.
pub open spec fn forest_view(children: Seq<TreeNode>) -> Seq<TreeShape>
    decreases children,
{
    if children.len() == 0 {
        Seq::empty()
    } else {
        seq![tree_view(children[0])] + forest_view(children.subrange(1, children.len() as int))
    }
}

/// `forest_view` maps `tree_view` over the list, element by element.
pub proof fn lemma_forest_view(children: Seq<TreeNode>)
    ensures
        forest_view(children).len() == children.len(),
        forall|i: int|
            0 <= i < children.len() ==> #[trigger] forest_view(children)[i] == tree_view(
                children[i],
            ),
    decreases children,
{
    if children.len() > 0 {
        lemma_forest_view(children.subrange(1, children.len() as int));
        assert(forall|i: int|
            1 <= i < children.len() ==> #[trigger] children[i] == children.subrange(
                1,
                children.len() as int,
            )[i - 1]);
    }
}

/// A structure-preserving deep copy: the copy has the same shape as the
/// original.
#[verifier::loop_isolation(false)]
pub fn copy_tree_node(tree: &TreeNode) -> (r: TreeNode)
    ensures
        tree_view(r) == tree_view(*tree),
    decreases *tree,
{
    match tree {
        TreeNode::Leaf(s) => TreeNode::Leaf(s.clone()),
        TreeNode::Node(s, children) => {
            let mut newchildren: Vec<TreeNode> = Vec::new();
            let mut i: usize = 0;
            while i < children.len()
                invariant
                    0 <= i <= children@.len(),
                    newchildren@.len() == i,
                    forall|j: int|
                        0 <= j < i ==> tree_view(newchildren@[j]) == tree_view(
                            #[trigger] children@[j],
                        ),
                decreases children@.len() - i,
            {
                proof {
                    assert(decreases_to!(*tree => (*tree)->Node_1));
                    assert(decreases_to!((*tree)->Node_1 => (*tree)->Node_1@));
                    assert((*tree)->Node_1@ == children@);
                    assert(decreases_to!(children@ => children@[i as int]));
                }
                let c = copy_tree_node(&children[i]);
                newchildren.push(c);
                i += 1;
            }
            proof {
                lemma_forest_view(newchildren@);
                lemma_forest_view(children@);
                assert(forest_view(newchildren@) =~= forest_view(children@));
            }
            TreeNode::Node(s.clone(), newchildren)
        },
    }
}

/// The full cleartext paths under a shape: depth-first, pre-order, the prefix
/// extended with `/` and the node's name at every level. A leaf contributes
/// its one path; an inner node contributes the paths of its children in
/// order.
pub open spec fn flatten_shape(t: TreeShape, prefix: Seq<char>) -> Seq<Seq<char>>
    decreases t,
{
    match t {
        TreeShape::Leaf(s) => seq![prefix + seq!['/'] + s],
        TreeShape::Node(s, children) => flatten_forest(children, prefix + seq!['/'] + s),
    }
}

/// The paths of a forest of shapes, in order.
pub open spec fn flatten_forest(children: Seq<TreeShape>, prefix: Seq<char>) -> Seq<Seq<char>>
    decreases children,
{
    if children.len() == 0 {
        Seq::empty()
    } else {
        flatten_shape(children[0], prefix) + flatten_forest(children.drop_first(), prefix)
    }
}

proof fn lemma_flatten_forest_skip(children: Seq<TreeShape>, prefix: Seq<char>, i: int)
    requires
        0 <= i < children.len(),
    ensures
        flatten_forest(children.skip(i), prefix) == flatten_shape(children[i], prefix)
            + flatten_forest(children.skip(i + 1), prefix),
{
    assert(children.skip(i).len() > 0);
    assert(children.skip(i)[0] == children[i]);
    assert(children.skip(i).drop_first() =~= children.skip(i + 1));
}

/// Flatten a tree to the ordered list of full cleartext paths beneath it,
/// each the prefix joined with the names on the way down.
#[verifier::loop_isolation(false)]
pub fn flatten_tree(tree: &TreeNode, prefix: String) -> (r: Vec<String>)
    ensures
        r.deep_view() == flatten_shape(tree_view(*tree), prefix@),
    decreases *tree,
{
    let mut res: Vec<String> = Vec::new();
    match tree {
        TreeNode::Leaf(s) => {
            let mut entry = prefix.clone();
            entry.append("/");
            entry.append(s.as_str());
            proof {
                reveal_strlit("/");
                assert("/"@ =~= seq!['/']);
            }
            res.push(entry);
            proof {
                assert(res.deep_view() =~= flatten_shape(tree_view(*tree), prefix@));
            }
        },
        TreeNode::Node(s, children) => {
            let mut entry = prefix.clone();
            entry.append("/");
            entry.append(s.as_str());
            proof {
                reveal_strlit("/");
                assert("/"@ =~= seq!['/']);
            }
            let ghost cs = tree_view(*tree)->Node_1;
            proof {
                lemma_forest_view(children@);
                assert(cs.len() == children@.len());
                assert(cs.skip(0) =~= cs);
                assert(res.deep_view() + flatten_forest(cs, entry@) =~= flatten_forest(
                    cs,
                    entry@,
                ));
            }
            let mut i: usize = 0;
            while i < children.len()
                invariant
                    cs == tree_view(*tree)->Node_1,
                    cs.len() == children@.len(),
                    forall|j: int| 0 <= j < cs.len() ==> cs[j] == tree_view(#[trigger] children@[j]),
                    0 <= i <= children@.len(),
                    res.deep_view() + flatten_forest(cs.skip(i as int), entry@) == flatten_forest(
                        cs,
                        entry@,
                    ),
                decreases children@.len() - i,
            {
                proof {
                    assert(decreases_to!(*tree => (*tree)->Node_1));
                    assert(decreases_to!((*tree)->Node_1 => (*tree)->Node_1@));
                    assert((*tree)->Node_1@ == children@);
                    assert(decreases_to!(children@ => children@[i as int]));
                }
                let mut v = flatten_tree(&children[i], entry.clone());
                let ghost dv0 = res.deep_view();
                let ghost vv = v.deep_view();
                res.append(&mut v);
                proof {
                    assert(res.deep_view() =~= dv0 + vv);
                    lemma_flatten_forest_skip(cs, entry@, i as int);
                    assert((dv0 + vv) + flatten_forest(cs.skip(i as int + 1), entry@) =~= dv0 + (vv
                        + flatten_forest(cs.skip(i as int + 1), entry@)));
                }
                i += 1;
            }
            proof {
                assert(cs.skip(cs.len() as int) =~= Seq::<TreeShape>::empty());
                assert(res.deep_view() + Seq::<Seq<char>>::empty() =~= res.deep_view());
            }
        },
    }
    res
}

/// The ordered list of full cleartext paths beneath a tree; the same
/// enumeration as `flatten_tree`.
pub fn build_entry_list(tree: &TreeNode, prefix: String) -> (r: Vec<String>)
    ensures
        r.deep_view() == flatten_shape(tree_view(*tree), prefix@),
{
    flatten_tree(tree, prefix)
}

/// One rendered line: the bare name at the top of the rendering, otherwise
/// the accumulated indentation, a branch mark that distinguishes the last
/// child from its siblings, and the name.
pub open spec fn render_line(prefix: Seq<char>, last: bool, top: bool, name: Seq<char>) -> Seq<
    char,
> {
    if top {
        name + "\n"@
    } else if last {
        prefix + "└── "@ + name + "\n"@
    } else {
        prefix + "├── "@ + name + "\n"@
    }
}

/// The box-drawing rendering of a shape, one line per node.
pub open spec fn render_shape(t: TreeShape, prefix: Seq<char>, last: bool, top: bool) -> Seq<char>
    decreases t,
{
    match t {
        TreeShape::Leaf(name) => render_line(prefix, last, top, name),
        TreeShape::Node(name, children) => render_line(prefix, last, top, name) + render_forest(
            children,
            if top {
                prefix
            } else if last {
                prefix + "    "@
            } else {
                prefix + "│   "@
            },
        ),
    }
}

/// The rendering of a forest: each child in order, only the final one marked
/// as last.
pub open spec fn render_forest(children: Seq<TreeShape>, prefix: Seq<char>) -> Seq<char>
    decreases children,
{
    if children.len() == 0 {
        Seq::empty()
    } else if children.len() == 1 {
        render_shape(children[0], prefix, true, false)
    } else {
        render_shape(children[0], prefix, false, false) + render_forest(
            children.drop_first(),
            prefix,
        )
    }
}

proof fn lemma_render_forest_skip(children: Seq<TreeShape>, prefix: Seq<char>, i: int)
    requires
        0 <= i < children.len(),
    ensures
        render_forest(children.skip(i), prefix) == render_shape(
            children[i],
            prefix,
            i == children.len() - 1,
            false,
        ) + render_forest(children.skip(i + 1), prefix),
{
    assert(children.skip(i).len() == children.len() - i);
    assert(children.skip(i)[0] == children[i]);
    if i == children.len() - 1 {
        assert(children.skip(i + 1) =~= Seq::<TreeShape>::empty());
        assert(render_forest(children.skip(i + 1), prefix) == Seq::<char>::empty());
        assert(render_shape(children[i], prefix, true, false) + Seq::<char>::empty()
            =~= render_shape(children[i], prefix, true, false));
    } else {
        assert(children.skip(i).drop_first() =~= children.skip(i + 1));
    }
}

/// Render a tree as box-drawing text, one line per node, intermediate
/// children marked differently from the last child at each level and
/// indentation accumulated per depth. `top` says that this node heads the
/// rendering: its line is the bare name and its children add no indentation.
#[verifier::loop_isolation(false)]
pub fn render_tree(tree: &TreeNode, prefix: &str, last: bool, top: bool) -> (r: String)
    ensures
        r@ == render_shape(tree_view(*tree), prefix@, last, top),
    decreases *tree,
{
    let mut out = String::new();
    if top {
        match tree {
            TreeNode::Leaf(name) => out.append(name.as_str()),
            TreeNode::Node(name, _) => out.append(name.as_str()),
        }
        out.append("\n");
    } else {
        out.append(prefix);
        if last {
            out.append("└── ");
        } else {
            out.append("├── ");
        }
        match tree {
            TreeNode::Leaf(name) => out.append(name.as_str()),
            TreeNode::Node(name, _) => out.append(name.as_str()),
        }
        out.append("\n");
    }
    proof {
        assert(out@ =~= render_line(prefix@, last, top, tree_view(*tree).name()));
    }
    match tree {
        TreeNode::Leaf(_) => {},
        TreeNode::Node(_, children) => {
            let mut child_prefix = prefix.to_owned();
            if !top {
                if last {
                    child_prefix.append("    ");
                } else {
                    child_prefix.append("│   ");
                }
            }
            let ghost cs = tree_view(*tree)->Node_1;
            proof {
                lemma_forest_view(children@);
                assert(cs.len() == children@.len());
                assert(cs.skip(0) =~= cs);
            }
            let n = children.len();
            let mut i: usize = 0;
            while i < n
                invariant
                    cs == tree_view(*tree)->Node_1,
                    cs.len() == children@.len(),
                    n == children@.len(),
                    forall|j: int| 0 <= j < cs.len() ==> cs[j] == tree_view(#[trigger] children@[j]),
                    0 <= i <= n,
                    out@ + render_forest(cs.skip(i as int), child_prefix@) == render_line(
                        prefix@,
                        last,
                        top,
                        tree_view(*tree).name(),
                    ) + render_forest(cs, child_prefix@),
                decreases n - i,
            {
                proof {
                    assert(decreases_to!(*tree => (*tree)->Node_1));
                    assert(decreases_to!((*tree)->Node_1 => (*tree)->Node_1@));
                    assert((*tree)->Node_1@ == children@);
                    assert(decreases_to!(children@ => children@[i as int]));
                }
                let line = render_tree(&children[i], child_prefix.as_str(), i == n - 1, false);
                let ghost out0 = out@;
                out.append(line.as_str());
                proof {
                    lemma_render_forest_skip(cs, child_prefix@, i as int);
                    assert((out0 + line@) + render_forest(cs.skip(i as int + 1), child_prefix@)
                        =~= out0 + (line@ + render_forest(cs.skip(i as int + 1), child_prefix@)));
                }
                i += 1;
            }
            proof {
                assert(cs.skip(cs.len() as int) =~= Seq::<TreeShape>::empty());
                assert(out@ + Seq::<char>::empty() =~= out@);
            }
        },
    }
    out
}

} // verus!
