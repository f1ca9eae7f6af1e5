//! Fuzzy ranking of a tree against a typed query: at each depth the children
//! are reordered by closeness of their names to the query segment for that
//! depth — substring containment first, then ascending length-normalized edit
//! distance — consuming one query segment per level.

use crate::text::{contains_seq, str_contains, str_starts_with};
use crate::tree::{
    copy_tree_node, forest_view, lemma_forest_view, tree_view, TreeNode, TreeShape,
};
use vstd::multiset::Multiset;
use vstd::prelude::*;
use vstd::string::StrSliceExecFns;

verus! {

/// The least of three naturals.
pub open spec fn min3(a: nat, b: nat, c: nat) -> nat {
    if a <= b && a <= c {
        a
    } else if b <= c {
        b
    } else {
        c
    }
}

/// The Levenshtein distance between two character sequences: the minimum
/// number of single-character insertions, deletions and substitutions that
/// turn one into the other.
pub open spec fn lev_dist(a: Seq<char>, b: Seq<char>) -> nat
    decreases a.len(), b.len(),
{
    if a.len() == 0 {
        b.len()
    } else if b.len() == 0 {
        a.len()
    } else if a[0] == b[0] {
        lev_dist(a.drop_first(), b.drop_first())
    } else {
        (min3(
            lev_dist(a.drop_first(), b),
            lev_dist(a, b.drop_first()),
            lev_dist(a.drop_first(), b.drop_first()),
        ) + 1) as nat
    }
}

/// Relies on `levenshtein::levenshtein`: it computes the Levenshtein distance
/// between the two strings, over characters.
#[verifier::external_body]
fn levenshtein_distance(a: &str, b: &str) -> (r: usize)
    ensures
        r as nat == lev_dist(a@, b@),
{
    levenshtein::levenshtein(a, b)
}

/// The length-normalized distance: the distance scaled by 1000 and divided by
/// the candidate's length, integer-truncated. An empty candidate, or a
/// quotient beyond the machine range, saturates to the largest value, so such
/// candidates sort last.
pub open spec fn norm_dist(d: nat, l: nat) -> nat {
    if l == 0 {
        usize::MAX as nat
    } else if d * 1000 / l > usize::MAX as nat {
        usize::MAX as nat
    } else {
        d * 1000 / l
    }
}

fn norm_dist_exec(d: usize, l: usize) -> (r: usize)
    ensures
        r as nat == norm_dist(d as nat, l as nat),
{
    if l == 0 {
        usize::MAX
    } else {
        let q = (d as u128) * 1000 / (l as u128);
        if q > usize::MAX as u128 {
            usize::MAX
        } else {
            q as usize
        }
    }
}

/// Whether `a` may stand no later than `b` among siblings ranked against the
/// query segment `w`: a name containing `w` comes before one that does not
/// even start with it; remaining ties go by ascending normalized distance.
pub open spec fn rank_le(w: Seq<char>, a: Seq<char>, b: Seq<char>) -> bool {
    if contains_seq(a, w) && !w.is_prefix_of(b) {
        true
    } else if contains_seq(b, w) && !w.is_prefix_of(a) {
        false
    } else {
        norm_dist(lev_dist(a, w), a.len()) <= norm_dist(lev_dist(b, w), b.len())
    }
}

/// Law: the ranking relation is total — of any two names, at least one may
/// stand no later than the other, so every level can be ordered by it.
pub proof fn lemma_rank_le_total(w: Seq<char>, a: Seq<char>, b: Seq<char>)
    ensures
        rank_le(w, a, b) || rank_le(w, b, a),
{
}

fn rank_le_exec(w: &str, a: &str, b: &str) -> (r: bool)
    ensures
        r == rank_le(w@, a@, b@),
{
    if str_contains(a, w) && !str_starts_with(b, w) {
        return true;
    }
    if str_contains(b, w) && !str_starts_with(a, w) {
        return false;
    }
    let da = levenshtein_distance(a, w);
    let db = levenshtein_distance(b, w);
    let na = norm_dist_exec(da, a.unicode_len());
    let nb = norm_dist_exec(db, b.unicode_len());
    na <= nb
}

/// Whether a level's shapes stand in ranked order: each adjacent pair obeys
/// `rank_le` on its names.
pub open spec fn ranked_level(w: Seq<char>, cs: Seq<TreeShape>) -> bool {
    forall|j: int|
        0 <= j < cs.len() - 1 ==> rank_le(w, (#[trigger] cs[j]).name(), cs[j + 1].name())
}

fn node_name<'a>(t: &'a TreeNode) -> (r: &'a str)
    ensures
        r@ == tree_view(*t).name(),
{
    match t {
        TreeNode::Node(s, _) => s.as_str(),
        TreeNode::Leaf(s) => s.as_str(),
    }
}

proof fn lemma_insert_to_multiset(s: Seq<TreeShape>, i: int, x: TreeShape)
    requires
        0 <= i <= s.len(),
    ensures
        s.insert(i, x).to_multiset() =~= s.to_multiset().insert(x),
{
    broadcast use vstd::seq_lib::lemma_multiset_commutative;
    broadcast use vstd::seq_lib::group_to_multiset_ensures;

    let left = s.subrange(0, i);
    let right = s.subrange(i, s.len() as int);
    assert(s.insert(i, x) == left.push(x) + right);
    assert(s =~= left + right);
    assert((left.push(x) + right).to_multiset() =~= left.push(x).to_multiset().add(
        right.to_multiset(),
    ));
    assert(left.push(x).to_multiset() =~= left.to_multiset().insert(x));
    assert((left + right).to_multiset() =~= left.to_multiset().add(right.to_multiset()));
    assert(left.to_multiset().insert(x).add(right.to_multiset()) =~= left.to_multiset().add(
        right.to_multiset(),
    ).insert(x));
}

/// Insert one node into a ranked level so that the level stays ranked; the
/// level gains exactly that node's shape.
#[verifier::loop_isolation(false)]
fn insert_ranked(out: &mut Vec<TreeNode>, x: TreeNode, w: &str)
    requires
        ranked_level(w@, forest_view(old(out)@)),
    ensures
        final(out)@.len() == old(out)@.len() + 1,
        ranked_level(w@, forest_view(final(out)@)),
        forest_view(final(out)@).to_multiset() =~= forest_view(old(out)@).to_multiset().insert(
            tree_view(x),
        ),
{
    let ghost s0 = out@;
    let ghost xn = tree_view(x).name();
    let mut pos: usize = out.len();
    let mut stop = false;
    while !stop && pos > 0
        invariant
            out@ == s0,
            0 <= pos <= s0.len(),
            pos < s0.len() ==> !rank_le(w@, tree_view(s0[pos as int]).name(), xn),
            stop ==> pos > 0 && rank_le(w@, tree_view(s0[pos as int - 1]).name(), xn),
        decreases (if stop {
            0int
        } else {
            1int
        }), pos,
    {
        if rank_le_exec(w, node_name(&out[pos - 1]), node_name(&x)) {
            stop = true;
        } else {
            pos -= 1;
        }
    }
    proof {
        assert(pos > 0 ==> rank_le(w@, tree_view(s0[pos as int - 1]).name(), xn));
    }
    let ghost sx = tree_view(x);
    out.insert(pos, x);
    proof {
        let ns = out@;
        assert(ns == s0.insert(pos as int, x));
        s0.insert_ensures(pos as int, x);
        lemma_forest_view(s0);
        lemma_forest_view(ns);
        let fv0 = forest_view(s0);
        let fv1 = forest_view(ns);
        assert(fv1 =~= fv0.insert(pos as int, sx)) by {
            fv0.insert_ensures(pos as int, sx);
        };
        lemma_insert_to_multiset(fv0, pos as int, sx);
        assert(ranked_level(w@, fv1)) by {
            fv0.insert_ensures(pos as int, sx);
            assert forall|j: int| 0 <= j < fv1.len() - 1 implies rank_le(
                w@,
                (#[trigger] fv1[j]).name(),
                fv1[j + 1].name(),
            ) by {
                if j + 1 < pos {
                    assert(fv1[j] == fv0[j] && fv1[j + 1] == fv0[j + 1]);
                } else if j + 1 == pos {
                    assert(fv1[j] == fv0[j] && fv1[j + 1] == sx);
                } else if j == pos {
                    assert(fv1[j] == sx && fv1[j + 1] == fv0[j]);
                    lemma_rank_le_total(w@, tree_view(s0[j]).name(), xn);
                } else {
                    assert(fv1[j] == fv0[j - 1] && fv1[j + 1] == fv0[j]);
                }
            }
        };
    }
}

/// Sort one level of nodes by rank against the query segment `w`: the result
/// is a permutation of the input shapes standing in ranked order.
#[verifier::loop_isolation(false)]
fn sort_children_by_rank(items: Vec<TreeNode>, w: &str) -> (r: Vec<TreeNode>)
    ensures
        r@.len() == items@.len(),
        ranked_level(w@, forest_view(r@)),
        forest_view(r@).to_multiset() =~= forest_view(items@).to_multiset(),
{
    broadcast use vstd::seq_lib::group_to_multiset_ensures;

    let ghost items0 = items@;
    let mut rem = items;
    // Reverse onto a stack, so that the items are then taken in their given
    // order and names that rank alike keep their relative places.
    let mut stack: Vec<TreeNode> = Vec::new();
    proof {
        lemma_forest_view(rem@);
        assert(forest_view(stack@) =~= Seq::<TreeShape>::empty());
        assert(forest_view(stack@).to_multiset().add(forest_view(rem@).to_multiset())
            =~= forest_view(items0).to_multiset());
    }
    while rem.len() > 0
        invariant
            stack@.len() + rem@.len() == items0.len(),
            forest_view(stack@).to_multiset().add(forest_view(rem@).to_multiset())
                =~= forest_view(items0).to_multiset(),
        decreases rem@.len(),
    {
        let ghost r0 = rem@;
        let ghost st0 = stack@;
        let x = rem.pop().unwrap();
        let ghost sx = tree_view(x);
        stack.push(x);
        proof {
            lemma_forest_view(r0);
            lemma_forest_view(rem@);
            lemma_forest_view(st0);
            lemma_forest_view(stack@);
            assert(forest_view(r0) =~= forest_view(rem@).push(sx));
            assert(forest_view(r0).to_multiset() =~= forest_view(rem@).to_multiset().insert(sx));
            assert(forest_view(stack@) =~= forest_view(st0).push(sx));
            assert(forest_view(stack@).to_multiset() =~= forest_view(st0).to_multiset().insert(
                sx,
            ));
            assert(forest_view(st0).to_multiset().insert(sx).add(forest_view(rem@).to_multiset())
                =~= forest_view(st0).to_multiset().add(
                forest_view(rem@).to_multiset().insert(sx),
            ));
        }
    }
    let mut out: Vec<TreeNode> = Vec::new();
    proof {
        lemma_forest_view(rem@);
        assert(forest_view(rem@) =~= Seq::<TreeShape>::empty());
        assert(forest_view(out@) =~= Seq::<TreeShape>::empty());
        assert(forest_view(out@).to_multiset().add(forest_view(stack@).to_multiset())
            =~= forest_view(items0).to_multiset());
    }
    while stack.len() > 0
        invariant
            ranked_level(w@, forest_view(out@)),
            out@.len() + stack@.len() == items0.len(),
            forest_view(out@).to_multiset().add(forest_view(stack@).to_multiset())
                =~= forest_view(items0).to_multiset(),
        decreases stack@.len(),
    {
        let ghost st0 = stack@;
        let ghost out0 = out@;
        let x = stack.pop().unwrap();
        proof {
            lemma_forest_view(st0);
            lemma_forest_view(stack@);
            assert(forest_view(st0) =~= forest_view(stack@).push(tree_view(x)));
            assert(forest_view(st0).to_multiset() =~= forest_view(stack@).to_multiset().insert(
                tree_view(x),
            ));
        }
        insert_ranked(&mut out, x, w);
        proof {
            assert(forest_view(out@).to_multiset().add(forest_view(stack@).to_multiset())
                =~= forest_view(out0).to_multiset().insert(tree_view(x)).add(
                forest_view(stack@).to_multiset(),
            ));
            assert(forest_view(out0).to_multiset().insert(tree_view(x)).add(
                forest_view(stack@).to_multiset(),
            ) =~= forest_view(out0).to_multiset().add(
                forest_view(stack@).to_multiset().insert(tree_view(x)),
            ));
        }
    }
    proof {
        lemma_forest_view(stack@);
        assert(forest_view(stack@) =~= Seq::<TreeShape>::empty());
        assert(forest_view(out@).to_multiset().add(Multiset::<TreeShape>::empty())
            =~= forest_view(out@).to_multiset());
    }
    out
}

/// How a ranked tree relates to its source, one query segment consumed per
/// depth: the result's children are a permutation of the recursively ranked
/// children, standing in ranked order against the segment for this depth;
/// once the query is exhausted the subtree is kept as it is.
pub open spec fn ranked_tree(words: Seq<Seq<char>>, t: TreeShape, r: TreeShape) -> bool
    decreases t,
{
    if words.len() == 0 {
        r == t
    } else {
        match t {
            TreeShape::Leaf(_) => r == t,
            TreeShape::Node(nm, cs) => {
                &&& r is Node
                &&& r->Node_0 == nm
                &&& ranked_children(words.drop_first(), cs, r->Node_1)
                &&& ranked_level(words[0], r->Node_1)
            },
        }
    }
}

/// The shapes `rs` are a permutation of the shapes `cs`, each ranked against
/// the remaining query.
pub open spec fn ranked_children(words: Seq<Seq<char>>, cs: Seq<TreeShape>, rs: Seq<
    TreeShape,
>) -> bool
    decreases cs,
{
    exists|mid: Seq<TreeShape>|
        {
            &&& #[trigger] mid.to_multiset() == rs.to_multiset()
            &&& mid.len() == cs.len()
            &&& forall|i: int| 0 <= i < cs.len() ==> ranked_tree(words, cs[i], #[trigger] mid[i])
        }
}

/// Rank a tree against the query segments, depth by depth. The original tree
/// is left untouched; a freshly built tree is returned whose relation to the
/// source is `ranked_tree`.
pub fn sort_tree_leveshtein(tree: &TreeNode, words: Vec<&str>) -> (r: TreeNode)
    ensures
        ranked_tree(words.deep_view(), tree_view(*tree), tree_view(r)),
{
    let r = sort_tree_from(tree, &words, 0);
    proof {
        assert(words.deep_view().skip(0) =~= words.deep_view());
    }
    r
}

/// Rank `tree` against the query segments from position `d` on.
#[verifier::loop_isolation(false)]
fn sort_tree_from(tree: &TreeNode, words: &Vec<&str>, d: usize) -> (r: TreeNode)
    requires
        d <= words@.len(),
    ensures
        ranked_tree(words.deep_view().skip(d as int), tree_view(*tree), tree_view(r)),
    decreases *tree,
{
    let ghost wsub = words.deep_view().skip(d as int);
    if d >= words.len() {
        let r = copy_tree_node(tree);
        proof {
            assert(wsub.len() == 0);
        }
        return r;
    }
    match tree {
        TreeNode::Leaf(s) => {
            let r = TreeNode::Leaf(s.clone());
            proof {
                assert(tree_view(r) == tree_view(*tree));
            }
            r
        },
        TreeNode::Node(s, children) => {
            let ghost cs = tree_view(*tree)->Node_1;
            proof {
                lemma_forest_view(children@);
            }
            let mut newchildren: Vec<TreeNode> = Vec::new();
            let mut i: usize = 0;
            while i < children.len()
                invariant
                    0 <= i <= children@.len(),
                    newchildren@.len() == i,
                    forall|j: int|
                        0 <= j < i ==> ranked_tree(
                            wsub.drop_first(),
                            cs[j],
                            tree_view(#[trigger] newchildren@[j]),
                        ),
                decreases children@.len() - i,
            {
                proof {
                    assert(decreases_to!(*tree => (*tree)->Node_1));
                    assert(decreases_to!((*tree)->Node_1 => (*tree)->Node_1@));
                    assert((*tree)->Node_1@ == children@);
                    assert(decreases_to!(children@ => children@[i as int]));
                }
                let c = sort_tree_from(&children[i], words, d + 1);
                proof {
                    assert(words.deep_view().skip(d as int + 1) =~= wsub.drop_first());
                    assert(cs[i as int] == tree_view(children@[i as int]));
                }
                newchildren.push(c);
                i += 1;
            }
            let ghost mid = forest_view(newchildren@);
            proof {
                lemma_forest_view(newchildren@);
            }
            let w: &str = words[d];
            proof {
                assert(w@ == wsub[0]);
            }
            let sorted = sort_children_by_rank(newchildren, w);
            let r = TreeNode::Node(s.clone(), sorted);
            proof {
                assert(tree_view(r)->Node_1 == forest_view(sorted@));
                assert(mid.to_multiset() == forest_view(sorted@).to_multiset());
                assert(forall|j: int|
                    0 <= j < cs.len() ==> ranked_tree(wsub.drop_first(), cs[j], #[trigger] mid[j]));
                assert(ranked_children(wsub.drop_first(), cs, forest_view(sorted@)));
            }
            r
        },
    }
}

} // verus!
