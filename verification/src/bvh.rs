//! The bounding volume hierarchy that is uploaded to the renderer.

use crate::arithmetic::{Arithmetic, ArithmeticModel, Operation};
use crate::geometry::Triangle;
use crate::math::{
    bounds_above, bounds_below, greatest, least, lemma_greatest_is_tight, lemma_least_is_tight,
    Vec3, Vec4,
};
use crate::sah::{
    axis_value, centroid_bounds, centroids, longest_axis, longest_axis_spec, lower_corners,
    triangle_bounds, upper_corners, BuildTriangle,
};
use crate::scalar::Scalar;
use crate::select::{
    lemma_concat_keeps_permutation, lemma_map_keeps_permutation, lemma_permutation_contains,
    lemma_permutation_len, partition_by_keys,
};
use vstd::arithmetic::power2::{lemma2_to64, lemma_pow2_unfold, pow2};
use vstd::prelude::*;

verus! {

/// Depth from which on sets of triangles are halved.
pub const BVH_BALANCE_DEPTH: u32 = 32;

/// Largest number of triangles in a leaf.
pub const BVH_LEAF_SIZE: usize = 4;

/// Largest number of triangles that a hierarchy is built for: with that many
/// the node indices still fit into 32 bits.
pub const MAX_BVH_TRIANGLES: usize = 0x7fff_ffff;

/// Number of tree levels that the shader's traversal stack has room for.
pub const SHADER_STACK_DEPTH: u32 = 64;

/// A triangle as it lies in the renderer's buffer.
#[derive(Clone, Copy, Debug, PartialEq)]
pub struct GpuTriangle {
    pub v0: Vec4,
    pub v1: Vec4,
    pub v2: Vec4,
    pub normal: Vec4,
    pub color: Vec4,
}

/// A node as it lies in the renderer's buffer.  A leaf has a positive
/// `triangle_count` and the position of its first triangle in `child_or_first`;
/// an inner node has a `triangle_count` of zero and the indices of its two
/// children in `child_or_first` and `child_b`.
#[derive(Clone, Copy, Debug, PartialEq)]
pub struct GpuBvhNode {
    pub bounds_min: Vec4,
    pub bounds_max: Vec4,
    pub child_or_first: u32,
    pub child_b: u32,
    pub triangle_count: u32,
    pub pad: u32,
}

/// A hierarchy as a tree, with the box that was stored in each node.
pub enum Tree {
    Leaf { bounds_min: Vec3, bounds_max: Vec3, held: Seq<BuildTriangle> },
    Inner { bounds_min: Vec3, bounds_max: Vec3, left: Box<Tree>, right: Box<Tree> },
}

/// How a set of triangles is divided: by the bin of the centroid or by its
/// coordinate, along `axis`, with `mid` triangles on the lower side.
pub struct Division {
    pub binned: bool,
    pub axis: int,
    pub mid: int,
    pub low: Vec3,
    pub high: Vec3,
}

/// The coordinate that triangles are ordered by along `axis`.
pub open spec fn centroid_key(item: BuildTriangle, axis: int) -> int {
    let coordinate = item.centroid.axis_spec(axis);
    if coordinate.is_nan_spec() {
        0
    } else {
        coordinate.rank()
    }
}

/// How the triangles `items` are divided `depth` levels below the root: by the
/// surface-area heuristic while that is allowed and finds a split, and else
/// into halves along the axis on which the centroids spread most.
pub open spec fn division(model: ArithmeticModel, items: Seq<BuildTriangle>, depth: nat) -> Division {
    let low = least(centroids(items));
    let high = greatest(centroids(items));
    let split = model.sah_split_spec(items, low, high);
    if depth < BVH_BALANCE_DEPTH && split is Some {
        Division {
            binned: true,
            axis: split.unwrap().0 as int,
            mid: split.unwrap().1 as int,
            low,
            high,
        }
    } else {
        Division {
            binned: false,
            axis: longest_axis_spec(model.extents(low, high)),
            mid: items.len() as int / 2,
            low,
            high,
        }
    }
}

impl Division {
    /// What the triangles are ordered by.
    pub open spec fn key(self, model: ArithmeticModel, item: BuildTriangle) -> int {
        if self.binned {
            model.bin_of(item.centroid, self.low, self.high, self.axis)
        } else {
            centroid_key(item, self.axis)
        }
    }

    /// No triangle of `left` is ordered behind one of `right`.
    pub open spec fn separates(
        self,
        model: ArithmeticModel,
        left: Seq<BuildTriangle>,
        right: Seq<BuildTriangle>,
    ) -> bool {
        forall|i: int, j: int|
            0 <= i < left.len() && 0 <= j < right.len() ==> self.key(model, #[trigger] left[i])
                <= self.key(model, #[trigger] right[j])
    }
}

/// `whole`, in the order in which it was examined, has the box `bounds_min` to
/// `bounds_max` and was divided into `left` and `right`.
pub open spec fn divides(
    model: ArithmeticModel,
    depth: nat,
    whole: Seq<BuildTriangle>,
    bounds_min: Vec3,
    bounds_max: Vec3,
    left: Seq<BuildTriangle>,
    right: Seq<BuildTriangle>,
) -> bool {
    let division = division(model, whole, depth);
    &&& whole.len() > BVH_LEAF_SIZE
    &&& whole.to_multiset() == (left + right).to_multiset()
    &&& bounds_min == least(lower_corners(whole))
    &&& bounds_max == greatest(upper_corners(whole))
    &&& left.len() == division.mid
    &&& division.separates(model, left, right)
}

impl Tree {
    /// The triangles in the order of the leaves.
    pub open spec fn items(self) -> Seq<BuildTriangle>
        decreases self,
    {
        match self {
            Tree::Leaf { held, .. } => held,
            Tree::Inner { left, right, .. } => left.items() + right.items(),
        }
    }

    /// Number of nodes.
    pub open spec fn node_count(self) -> nat
        decreases self,
    {
        match self {
            Tree::Leaf { .. } => 1,
            Tree::Inner { left, right, .. } => 1 + left.node_count() + right.node_count(),
        }
    }

    /// Number of levels.
    pub open spec fn height(self) -> nat
        decreases self,
    {
        match self {
            Tree::Leaf { .. } => 1,
            Tree::Inner { left, right, .. } => if left.height() < right.height() {
                1 + right.height()
            } else {
                1 + left.height()
            },
        }
    }

    /// The lower corner stored in the root.
    pub open spec fn low(self) -> Vec3 {
        match self {
            Tree::Leaf { bounds_min, .. } => bounds_min,
            Tree::Inner { bounds_min, .. } => bounds_min,
        }
    }

    /// The upper corner stored in the root.
    pub open spec fn high(self) -> Vec3 {
        match self {
            Tree::Leaf { bounds_max, .. } => bounds_max,
            Tree::Inner { bounds_max, .. } => bounds_max,
        }
    }

    /// The nodes in depth-first order, the left subtree first, when the root
    /// gets index `node_base` and the first triangle position `item_base`.
    pub open spec fn layout(self, node_base: nat, item_base: nat) -> Seq<GpuBvhNode>
        decreases self,
    {
        match self {
            Tree::Leaf { bounds_min, bounds_max, held } => seq![
                GpuBvhNode {
                    bounds_min: bounds_min.extend_spec(),
                    bounds_max: bounds_max.extend_spec(),
                    child_or_first: item_base as u32,
                    child_b: 0,
                    triangle_count: held.len() as u32,
                    pad: 0,
                },
            ],
            Tree::Inner { bounds_min, bounds_max, left, right } => seq![
                GpuBvhNode {
                    bounds_min: bounds_min.extend_spec(),
                    bounds_max: bounds_max.extend_spec(),
                    child_or_first: (node_base + 1) as u32,
                    child_b: (node_base + 1 + left.node_count()) as u32,
                    triangle_count: 0,
                    pad: 0,
                },
            ] + left.layout(node_base + 1, item_base) + right.layout(
                node_base + 1 + left.node_count(),
                item_base + left.items().len(),
            ),
        }
    }

    /// The tree is one that the construction rules allow for a node `depth`
    /// levels below the root.  Only the order in which a partition leaves the
    /// triangles on either side is left open.
    pub open spec fn built(self, model: ArithmeticModel, depth: nat) -> bool
        decreases self,
    {
        match self {
            Tree::Leaf { bounds_min, bounds_max, held } => {
                &&& 0 < held.len() <= BVH_LEAF_SIZE
                &&& bounds_min == least(lower_corners(held))
                &&& bounds_max == greatest(upper_corners(held))
            },
            Tree::Inner { bounds_min, bounds_max, left, right } => {
                &&& left.built(model, depth + 1)
                &&& right.built(model, depth + 1)
                &&& exists|whole: Seq<BuildTriangle>| #[trigger]
                    divides(
                        model,
                        depth,
                        whole,
                        bounds_min,
                        bounds_max,
                        left.items(),
                        right.items(),
                    )
            },
        }
    }
}

/// A hierarchy has at least one triangle per leaf, so fewer nodes than twice
/// its triangles, and as many nodes in its layout as in the tree.
pub proof fn lemma_node_count(tree: Tree, model: ArithmeticModel, depth: nat, m: nat, n: nat)
    requires
        tree.built(model, depth),
    ensures
        0 < tree.items().len(),
        tree.node_count() < 2 * tree.items().len(),
        tree.layout(m, n).len() == tree.node_count(),
    decreases tree,
{
    if let Tree::Inner { left, right, .. } = tree {
        lemma_node_count(*left, model, depth + 1, m + 1, n);
        lemma_node_count(
            *right,
            model,
            depth + 1,
            m + 1 + left.node_count(),
            n + left.items().len(),
        );
    }
}

/// From the depth on which sets are halved, a tree over at most
/// `BVH_LEAF_SIZE * 2^levels` triangles has at most `levels + 1` levels.
proof fn lemma_balanced_height(tree: Tree, model: ArithmeticModel, depth: nat, levels: nat)
    requires
        tree.built(model, depth),
        depth >= BVH_BALANCE_DEPTH,
        tree.items().len() <= BVH_LEAF_SIZE * pow2(levels),
    ensures
        tree.height() <= levels + 1,
    decreases tree,
{
    match tree {
        Tree::Leaf { .. } => {},
        Tree::Inner { bounds_min, bounds_max, left, right } => {
            let whole = choose|whole: Seq<BuildTriangle>| #[trigger]
                divides(
                    model,
                    depth,
                    whole,
                    bounds_min,
                    bounds_max,
                    left.items(),
                    right.items(),
                );
            lemma_permutation_len(whole, left.items() + right.items());
            lemma2_to64();
            if levels == 0 {
                assert(false);
            }
            lemma_pow2_unfold(levels);
            lemma_balanced_height(*left, model, depth + 1, (levels - 1) as nat);
            lemma_balanced_height(*right, model, depth + 1, (levels - 1) as nat);
        },
    }
}

/// Above that depth every level may split off as little as one triangle.
proof fn lemma_height(tree: Tree, model: ArithmeticModel, depth: nat, levels: nat)
    requires
        tree.built(model, depth),
        depth <= BVH_BALANCE_DEPTH,
        tree.items().len() <= BVH_LEAF_SIZE * pow2(levels),
    ensures
        tree.height() <= levels + 1 + (BVH_BALANCE_DEPTH - depth),
    decreases tree,
{
    if depth == BVH_BALANCE_DEPTH {
        lemma_balanced_height(tree, model, depth, levels);
    } else {
        if let Tree::Inner { left, right, .. } = tree {
            lemma_height(*left, model, depth + 1, levels);
            lemma_height(*right, model, depth + 1, levels);
        }
    }
}

/// However skewed the geometry is, the hierarchy of a scene whose triangles can
/// be counted in 32 bits fits into the shader's traversal stack.
pub proof fn lemma_height_fits_shader_stack(tree: Tree, model: ArithmeticModel)
    requires
        tree.built(model, 0),
        tree.items().len() <= u32::MAX,
    ensures
        tree.height() <= SHADER_STACK_DEPTH,
{
    lemma2_to64();
    lemma_height(tree, model, 0, 31);
}

/// Number of levels that a traversal from node `index` passes through.  Children
/// are followed only where they are nodes behind their parent.
pub open spec fn walk_depth(nodes: Seq<GpuBvhNode>, index: int) -> nat
    decreases nodes.len() - index,
{
    let node = nodes[index];
    if node.triangle_count > 0 || !(index < node.child_or_first < nodes.len()) || !(index
        < node.child_b < nodes.len()) {
        1
    } else {
        let a = walk_depth(nodes, node.child_or_first as int);
        let b = walk_depth(nodes, node.child_b as int);
        if a < b {
            1 + b
        } else {
            1 + a
        }
    }
}

/// Walking the nodes that were laid out passes through as many levels as the
/// tree has.
proof fn lemma_walk_depth(
    tree: Tree,
    model: ArithmeticModel,
    depth: nat,
    nodes: Seq<GpuBvhNode>,
    m: nat,
    n: nat,
)
    requires
        tree.built(model, depth),
        nodes.len() <= u32::MAX,
        m + tree.node_count() <= nodes.len(),
        nodes.subrange(m as int, (m + tree.node_count()) as int) == tree.layout(m, n),
    ensures
        walk_depth(nodes, m as int) == tree.height(),
    decreases tree,
{
    let mine = tree.layout(m, n);
    lemma_node_count(tree, model, depth, m, n);
    assert(nodes[m as int] == mine[0]);
    if let Tree::Inner { left, right, .. } = tree {
        let l = left.node_count();
        lemma_node_count(*left, model, depth + 1, m + 1, n);
        lemma_node_count(*right, model, depth + 1, m + 1 + l, n + left.items().len());
        assert(nodes.subrange((m + 1) as int, (m + 1 + l) as int) =~= left.layout(m + 1, n)) by {
            assert forall|i: int| 0 <= i < l implies nodes[m + 1 + i] == #[trigger] left.layout(m + 1, n)[i] by {
                assert(nodes[m + 1 + i] == mine[1 + i]);
            }
        }
        assert(nodes.subrange(
            (m + 1 + l) as int,
            (m + 1 + l + right.node_count()) as int,
        ) =~= right.layout(m + 1 + l, n + left.items().len())) by {
            assert forall|i: int| 0 <= i < right.node_count() implies nodes[m + 1 + l + i]
                == #[trigger] right.layout(m + 1 + l, n + left.items().len())[i] by {
                assert(nodes[m + 1 + l + i] == mine[1 + l + i]);
            }
        }
        lemma_walk_depth(*left, model, depth + 1, nodes, m + 1, n);
        lemma_walk_depth(*right, model, depth + 1, nodes, m + 1 + l, n + left.items().len());
    } else {
        assert(tree->held.len() as u32 > 0);
    }
}

/// A traversal of an uploaded hierarchy passes through at most as many levels
/// as the shader's stack has room for.
pub proof fn lemma_walk_fits_shader_stack(tree: Tree, model: ArithmeticModel, nodes: Seq<GpuBvhNode>)
    requires
        tree.built(model, 0),
        tree.items().len() <= MAX_BVH_TRIANGLES,
        nodes == tree.layout(0, 0),
    ensures
        walk_depth(nodes, 0) <= SHADER_STACK_DEPTH,
{
    lemma_node_count(tree, model, 0, 0, 0);
    assert(nodes.subrange(0, tree.node_count() as int) =~= nodes);
    lemma_walk_depth(tree, model, 0, nodes, 0, 0);
    lemma_height_fits_shader_stack(tree, model);
}

/// The box stored in a node encloses the box of every triangle below it.
pub proof fn lemma_box_encloses(tree: Tree, model: ArithmeticModel, depth: nat, i: int)
    requires
        tree.built(model, depth),
        0 <= i < tree.items().len(),
    ensures
        bounds_below(tree.low(), tree.items()[i].bounds_min),
        bounds_above(tree.high(), tree.items()[i].bounds_max),
{
    let examined = match tree {
        Tree::Leaf { held, .. } => held,
        Tree::Inner { bounds_min, bounds_max, left, right } => choose|
            whole: Seq<BuildTriangle>,
        | #[trigger]
            divides(
                model,
                depth,
                whole,
                bounds_min,
                bounds_max,
                left.items(),
                right.items(),
            ),
    };
    assert(examined.to_multiset() == tree.items().to_multiset());
    lemma_permutation_contains(tree.items(), examined, i);
    let at = choose|at: int| 0 <= at < examined.len() && examined[at] == tree.items()[i];
    lemma_least_is_tight(lower_corners(examined));
    lemma_greatest_is_tight(upper_corners(examined));
    assert(lower_corners(examined)[at] == tree.items()[i].bounds_min);
    assert(upper_corners(examined)[at] == tree.items()[i].bounds_max);
}

/// `node` is a leaf that holds the triangle at `position`.
pub open spec fn leaf_holds(node: GpuBvhNode, position: int) -> bool {
    node.triangle_count > 0 && node.child_or_first <= position < node.child_or_first
        + node.triangle_count
}

/// Every triangle position belongs to exactly one leaf.
pub proof fn lemma_one_leaf_per_triangle(
    tree: Tree,
    model: ArithmeticModel,
    depth: nat,
    m: nat,
    n: nat,
    position: int,
)
    requires
        tree.built(model, depth),
        n + tree.items().len() <= u32::MAX,
        n <= position < n + tree.items().len(),
    ensures
        exists|i: int|
            0 <= i < tree.layout(m, n).len() && leaf_holds(
                #[trigger] tree.layout(m, n)[i],
                position,
            ),
        forall|i: int, j: int|
            0 <= i < tree.layout(m, n).len() && 0 <= j < tree.layout(m, n).len() && leaf_holds(
                #[trigger] tree.layout(m, n)[i],
                position,
            ) && leaf_holds(#[trigger] tree.layout(m, n)[j], position) ==> i == j,
    decreases tree,
{
    let all = tree.layout(m, n);
    match tree {
        Tree::Leaf { .. } => {
            assert(leaf_holds(all[0], position));
        },
        Tree::Inner { left, right, .. } => {
            let l = left.layout(m + 1, n);
            let r = right.layout(m + 1 + left.node_count(), n + left.items().len());
            lemma_leaves_stay_inside(*left, model, depth + 1, m + 1, n);
            lemma_leaves_stay_inside(
                *right,
                model,
                depth + 1,
                m + 1 + left.node_count(),
                n + left.items().len(),
            );
            assert forall|i: int| 0 <= i < l.len() implies all[1 + i] == #[trigger] l[i] by {}
            assert forall|i: int| 0 <= i < r.len() implies all[1 + l.len() + i] == #[trigger] r[i] by {}
            if position < n + left.items().len() {
                lemma_one_leaf_per_triangle(*left, model, depth + 1, m + 1, n, position);
                let at = choose|at: int|
                    0 <= at < l.len() && leaf_holds(#[trigger] l[at], position);
                assert(leaf_holds(all[1 + at], position));
            } else {
                lemma_one_leaf_per_triangle(
                    *right,
                    model,
                    depth + 1,
                    m + 1 + left.node_count(),
                    n + left.items().len(),
                    position,
                );
                let at = choose|at: int|
                    0 <= at < r.len() && leaf_holds(#[trigger] r[at], position);
                assert(leaf_holds(all[1 + l.len() + at], position));
            }
            assert forall|i: int, j: int|
                0 <= i < all.len() && 0 <= j < all.len() && leaf_holds(
                    #[trigger] all[i],
                    position,
                ) && leaf_holds(#[trigger] all[j], position) implies i == j by {
                assert(!leaf_holds(all[0], position));
                if i <= l.len() {
                    assert(all[i] == l[i - 1]);
                } else {
                    assert(all[i] == r[i - 1 - l.len()]);
                }
                if j <= l.len() {
                    assert(all[j] == l[j - 1]);
                } else {
                    assert(all[j] == r[j - 1 - l.len()]);
                }
            }
        },
    }
}

/// The leaves of a tree hold no triangle position outside its own range.
proof fn lemma_leaves_stay_inside(tree: Tree, model: ArithmeticModel, depth: nat, m: nat, n: nat)
    requires
        tree.built(model, depth),
        n + tree.items().len() <= u32::MAX,
    ensures
        forall|i: int, position: int|
            0 <= i < tree.layout(m, n).len() && #[trigger] leaf_holds(
                tree.layout(m, n)[i],
                position,
            ) ==> n <= position < n + tree.items().len(),
    decreases tree,
{
    if let Tree::Inner { left, right, .. } = tree {
        let all = tree.layout(m, n);
        let l = left.layout(m + 1, n);
        let r = right.layout(m + 1 + left.node_count(), n + left.items().len());
        lemma_leaves_stay_inside(*left, model, depth + 1, m + 1, n);
        lemma_leaves_stay_inside(
            *right,
            model,
            depth + 1,
            m + 1 + left.node_count(),
            n + left.items().len(),
        );
        assert forall|i: int, position: int|
            0 <= i < all.len() && #[trigger] leaf_holds(all[i], position) implies n <= position < n
            + tree.items().len() by {
            if 0 < i <= l.len() {
                assert(all[i] == l[i - 1]);
                assert(leaf_holds(l[i - 1], position));
            } else if i > l.len() {
                assert(all[i] == r[i - 1 - l.len()]);
                assert(leaf_holds(r[i - 1 - l.len()], position));
            }
        }
    }
}

/// Two trees over the parts of a division are the children of a tree over the
/// whole.
proof fn lemma_inner_built(
    model: ArithmeticModel,
    depth: nat,
    whole: Seq<BuildTriangle>,
    bounds_min: Vec3,
    bounds_max: Vec3,
    left: Seq<BuildTriangle>,
    right: Seq<BuildTriangle>,
    left_tree: Tree,
    right_tree: Tree,
)
    requires
        divides(model, depth, whole, bounds_min, bounds_max, left, right),
        left_tree.built(model, depth + 1),
        right_tree.built(model, depth + 1),
        left_tree.items().to_multiset() == left.to_multiset(),
        right_tree.items().to_multiset() == right.to_multiset(),
    ensures
        ({
            let tree = Tree::Inner {
                bounds_min,
                bounds_max,
                left: Box::new(left_tree),
                right: Box::new(right_tree),
            };
            &&& tree.built(model, depth)
            &&& tree.items().to_multiset() == whole.to_multiset()
        }),
{
    let division = division(model, whole, depth);
    let l = left_tree.items();
    let r = right_tree.items();
    lemma_concat_keeps_permutation(l, r, left, right);
    lemma_permutation_len(l, left);
    assert forall|i: int, j: int| 0 <= i < l.len() && 0 <= j < r.len() implies division.key(
        model,
        #[trigger] l[i],
    ) <= division.key(model, #[trigger] r[j]) by {
        lemma_permutation_contains(l, left, i);
        lemma_permutation_contains(r, right, j);
        let a = choose|a: int| 0 <= a < left.len() && left[a] == l[i];
        let b = choose|b: int| 0 <= b < right.len() && right[b] == r[j];
        assert(division.key(model, left[a]) <= division.key(model, right[b]));
    }
    let tree = Tree::Inner {
        bounds_min,
        bounds_max,
        left: Box::new(left_tree),
        right: Box::new(right_tree),
    };
    assert(divides(
        model,
        depth,
        whole,
        tree.low(),
        tree.high(),
        tree->left.items(),
        tree->right.items(),
    ));
    assert(tree.built(model, depth));
}

/// The layout of a tree is its root followed by the layouts of its children.
proof fn lemma_inner_layout(
    tree: Tree,
    ordered: Seq<GpuTriangle>,
    nodes: Seq<GpuBvhNode>,
    reserved: GpuBvhNode,
)
    requires
        tree is Inner,
        reserved.bounds_min == tree.low().extend_spec(),
        reserved.bounds_max == tree.high().extend_spec(),
        reserved.triangle_count == 0,
        reserved.pad == 0,
    ensures
        ({
            let left = tree->left;
            let right = tree->right;
            let m = nodes.len();
            let n = ordered.len();
            let root = GpuBvhNode {
                child_or_first: (m + 1) as u32,
                child_b: (m + 1 + left.node_count()) as u32,
                ..reserved
            };
            &&& gpu_triangles(tree.items()) =~= gpu_triangles(left.items()) + gpu_triangles(
                right.items(),
            )
            &&& tree.layout(m, n) == seq![root] + left.layout(m + 1, n) + right.layout(
                m + 1 + left.node_count(),
                n + left.items().len(),
            )
        }),
{
}

/// `triangle` as it lies in the renderer's buffer.
pub open spec fn gpu_triangle_spec(triangle: Triangle) -> GpuTriangle {
    GpuTriangle {
        v0: triangle.v0.extend_spec(),
        v1: triangle.v1.extend_spec(),
        v2: triangle.v2.extend_spec(),
        normal: triangle.normal.extend_spec(),
        color: triangle.color.extend_spec(),
    }
}

/// The triangles of `items` as they lie in the renderer's buffer.
pub open spec fn gpu_triangles(items: Seq<BuildTriangle>) -> Seq<GpuTriangle> {
    items.map_values(|item: BuildTriangle| gpu_triangle_spec(item.triangle))
}

/// `triangle` as it lies in the renderer's buffer.
pub fn gpu_triangle(triangle: Triangle) -> (packed: GpuTriangle)
    ensures
        packed == gpu_triangle_spec(triangle),
{
    GpuTriangle {
        v0: triangle.v0.extend(),
        v1: triangle.v1.extend(),
        v2: triangle.v2.extend(),
        normal: triangle.normal.extend(),
        color: triangle.color.extend(),
    }
}

/// The number that triangles are ordered by along `axis`.
fn axis_key(item: &BuildTriangle, axis: usize) -> (key: i64)
    ensures
        key == centroid_key(*item, axis as int),
{
    let coordinate: Scalar = axis_value(item.centroid, axis);
    if coordinate.is_nan() {
        0
    } else {
        coordinate.rank_key()
    }
}

/// `after` is `before` with the entries `start .. end` rearranged.
pub open spec fn rearranged<T>(before: Seq<T>, after: Seq<T>, start: int, end: int) -> bool {
    &&& after.len() == before.len()
    &&& forall|i: int|
        0 <= i < before.len() && !(start <= i < end) ==> #[trigger] after[i] == before[i]
    &&& after.subrange(start, end).to_multiset() == before.subrange(start, end).to_multiset()
}

impl<F, N> Arithmetic<F, N> where
    F: Copy + Fn(Operation, Scalar, Scalar) -> Scalar,
    N: Copy + Fn(Vec3) -> Option<Vec3>,
 {
    /// Rearranges `items[start .. end]` so that the `mid` triangles with the
    /// lowest bins along `axis` come first.
    pub fn partition_by_bin(
        self,
        items: &mut Vec<BuildTriangle>,
        start: usize,
        end: usize,
        low: Vec3,
        high: Vec3,
        axis: usize,
        mid: usize,
    )
        requires
            self.wf(),
            start <= end <= old(items)@.len(),
            mid < end - start,
        ensures
            rearranged(old(items)@, final(items)@, start as int, end as int),
            forall|i: int, j: int|
                start <= i < start + mid <= j < end ==> self.model().bin_of(
                    (#[trigger] final(items)@[i]).centroid,
                    low,
                    high,
                    axis as int,
                ) <= self.model().bin_of(
                    (#[trigger] final(items)@[j]).centroid,
                    low,
                    high,
                    axis as int,
                ),
    {
        let ghost model = self.model();
        let ghost key = |item: BuildTriangle| model.bin_of(item.centroid, low, high, axis as int);
        let mut keys: Vec<i64> = Vec::new();
        let mut next: usize = start;
        while next < end
            invariant
                self.wf(),
                model == self.model(),
                key == (|item: BuildTriangle|
                    model.bin_of(item.centroid, low, high, axis as int)),
                start <= next <= end <= items@.len(),
                keys@.len() == next - start,
                forall|i: int| 0 <= i < keys@.len() ==> #[trigger] keys@[i] == key(items@[start + i]),
            decreases end - next,
        {
            let bin: usize = self.centroid_bin(items[next].centroid, low, high, axis);
            keys.push(bin as i64);
            next += 1;
        }
        partition_by_keys(items, start, end, &keys, mid, Ghost(key));
        assert forall|i: int, j: int| start <= i < start + mid <= j < end implies model.bin_of(
            (#[trigger] items@[i]).centroid,
            low,
            high,
            axis as int,
        ) <= model.bin_of((#[trigger] items@[j]).centroid, low, high, axis as int) by {
            assert(key(items@[i]) <= key(items@[j]));
        }
    }

    /// Rearranges `items[start .. end]` so that the `mid` triangles with the
    /// lowest centroids along `axis` come first.
    fn partition_by_axis(
        self,
        items: &mut Vec<BuildTriangle>,
        start: usize,
        end: usize,
        axis: usize,
        mid: usize,
    )
        requires
            start <= end <= old(items)@.len(),
            mid < end - start,
        ensures
            rearranged(old(items)@, final(items)@, start as int, end as int),
            forall|i: int, j: int|
                start <= i < start + mid <= j < end ==> centroid_key(
                    #[trigger] final(items)@[i],
                    axis as int,
                ) <= centroid_key(#[trigger] final(items)@[j], axis as int),
    {
        let ghost key = |item: BuildTriangle| centroid_key(item, axis as int);
        let mut keys: Vec<i64> = Vec::new();
        let mut next: usize = start;
        while next < end
            invariant
                key == (|item: BuildTriangle| centroid_key(item, axis as int)),
                start <= next <= end <= items@.len(),
                keys@.len() == next - start,
                forall|i: int| 0 <= i < keys@.len() ==> #[trigger] keys@[i] == key(items@[start + i]),
            decreases end - next,
        {
            let place: i64 = axis_key(&items[next], axis);
            keys.push(place);
            next += 1;
        }
        partition_by_keys(items, start, end, &keys, mid, Ghost(key));
        assert forall|i: int, j: int| start <= i < start + mid <= j < end implies centroid_key(
            #[trigger] items@[i],
            axis as int,
        ) <= centroid_key(#[trigger] items@[j], axis as int) by {
            assert(key(items@[i]) <= key(items@[j]));
        }
    }

    /// Divides `items[start .. end]`, which lie `depth` levels below the root,
    /// and returns how many of them come first.
    fn divide(
        self,
        items: &mut Vec<BuildTriangle>,
        start: usize,
        end: usize,
        depth: u32,
    ) -> (mid: usize)
        requires
            self.wf(),
            start <= end <= old(items)@.len(),
            end - start > BVH_LEAF_SIZE,
        ensures
            rearranged(old(items)@, final(items)@, start as int, end as int),
            0 < mid < end - start,
            ({
                let division = division(
                    self.model(),
                    old(items)@.subrange(start as int, end as int),
                    depth as nat,
                );
                &&& mid == division.mid
                &&& division.separates(
                    self.model(),
                    final(items)@.subrange(start as int, start + mid),
                    final(items)@.subrange(start + mid, end as int),
                )
            }),
    {
        let ghost model = self.model();
        let ghost whole = items@.subrange(start as int, end as int);
        let (low, high) = centroid_bounds(items, start, end);
        let split = if depth >= BVH_BALANCE_DEPTH {
            None
        } else {
            self.sah_split(items, start, end, low, high)
        };
        match split {
            Some((axis, mid)) => {
                self.partition_by_bin(items, start, end, low, high, axis, mid);
                mid
            },
            None => {
                let axis: usize = longest_axis(self.extents(low, high));
                let mid: usize = (end - start) / 2;
                self.partition_by_axis(items, start, end, axis, mid);
                mid
            },
        }
    }

    /// Adds the hierarchy of `items[start .. end]` to the nodes, and its
    /// triangles in the order of its leaves to the triangles.  Returns the index
    /// of its root.
    #[verifier::rlimit(40)]
    #[verifier::spinoff_prover]
    fn build_bvh_node(
        self,
        items: &mut Vec<BuildTriangle>,
        start: usize,
        end: usize,
        ordered: &mut Vec<GpuTriangle>,
        nodes: &mut Vec<GpuBvhNode>,
        depth: u32,
    ) -> (root: (u32, Ghost<Tree>))
        requires
            self.wf(),
            start < end <= old(items)@.len(),
            depth + (end - start) <= u32::MAX,
            old(nodes)@.len() + 2 * (end - start) <= u32::MAX,
            old(ordered)@.len() + (end - start) <= u32::MAX,
        ensures
            rearranged(old(items)@, final(items)@, start as int, end as int),
            root.0 == old(nodes)@.len(),
            root.1@.built(self.model(), depth as nat),
            root.1@.items() == final(items)@.subrange(start as int, end as int),
            final(ordered)@ == old(ordered)@ + gpu_triangles(root.1@.items()),
            final(nodes)@ == old(nodes)@ + root.1@.layout(old(nodes)@.len(), old(ordered)@.len()),
        decreases end - start,
    {
        let ghost model = self.model();
        let ghost nodes0 = nodes@;
        let ghost ordered0 = ordered@;
        let ghost items0 = items@;
        let ghost whole = items@.subrange(start as int, end as int);
        let node_index: usize = nodes.len();
        let (bounds_min, bounds_max) = triangle_bounds(items, start, end);
        if end - start <= BVH_LEAF_SIZE {
            let first: usize = ordered.len();
            let mut next: usize = start;
            while next < end
                invariant
                    start <= next <= end <= items@.len(),
                    items@ == items0,
                    whole == items0.subrange(start as int, end as int),
                    ordered@ == ordered0 + gpu_triangles(whole.take(next - start)),
                decreases end - next,
            {
                ordered.push(gpu_triangle(items[next].triangle));
                assert(gpu_triangles(whole.take(next + 1 - start)) =~= gpu_triangles(
                    whole.take(next - start),
                ).push(gpu_triangle_spec(items0[next as int].triangle)));
                assert(ordered@ =~= ordered0 + gpu_triangles(whole.take(next + 1 - start)));
                next += 1;
            }
            assert(whole.take(end - start) =~= whole);
            nodes.push(
                GpuBvhNode {
                    bounds_min: bounds_min.extend(),
                    bounds_max: bounds_max.extend(),
                    child_or_first: first as u32,
                    child_b: 0,
                    triangle_count: (end - start) as u32,
                    pad: 0,
                },
            );
            let ghost tree = Tree::Leaf { bounds_min, bounds_max, held: whole };
            assert(nodes@ =~= nodes0 + tree.layout(nodes0.len(), ordered0.len()));
            return (node_index as u32, Ghost(tree));
        }
        let mid: usize = self.divide(items, start, end, depth);
        let ghost items1 = items@;
        let ghost left1 = items1.subrange(start as int, start + mid);
        let ghost right1 = items1.subrange(start + mid, end as int);
        let reserved = GpuBvhNode {
            bounds_min: bounds_min.extend(),
            bounds_max: bounds_max.extend(),
            child_or_first: 0,
            child_b: 0,
            triangle_count: 0,
            pad: 0,
        };
        nodes.push(reserved);
        let (left, Ghost(left_tree)) = self.build_bvh_node(
            items,
            start,
            start + mid,
            ordered,
            nodes,
            depth + 1,
        );
        let ghost items2 = items@;
        proof {
            lemma_node_count(left_tree, model, depth as nat + 1, nodes0.len() + 1, ordered0.len());
            assert(left_tree.items().to_multiset() == left1.to_multiset());
            assert(items2.subrange(start + mid, end as int) =~= right1);
        }
        let (right, Ghost(right_tree)) = self.build_bvh_node(
            items,
            start + mid,
            end,
            ordered,
            nodes,
            depth + 1,
        );
        let ghost items3 = items@;
        let node = GpuBvhNode { child_or_first: left, child_b: right, ..reserved };
        nodes.set(node_index, node);
        let ghost tree = Tree::Inner {
            bounds_min,
            bounds_max,
            left: Box::new(left_tree),
            right: Box::new(right_tree),
        };
        proof {
            let l = left_tree.items();
            let r = right_tree.items();
            assert(items3.subrange(start as int, start + mid) =~= l);
            assert(items3.subrange(start as int, end as int) =~= l + r);
            assert(items1.subrange(start as int, end as int) =~= left1 + right1);
            lemma_inner_built(
                model,
                depth as nat,
                whole,
                bounds_min,
                bounds_max,
                left1,
                right1,
                left_tree,
                right_tree,
            );
            lemma_inner_layout(tree, ordered0, nodes0, reserved);
            assert(ordered@ =~= ordered0 + gpu_triangles(tree.items()));
            assert(nodes@ =~= nodes0 + tree.layout(nodes0.len(), ordered0.len()));
        }
        (node_index as u32, Ghost(tree))
    }

    /// Builds the hierarchy over `source`: the triangles in the order of the
    /// leaves, and the nodes with the root first.
    pub fn build_bvh(self, source: &Vec<Triangle>) -> (hierarchy: (Vec<GpuTriangle>, Vec<GpuBvhNode>))
        requires
            self.wf(),
            0 < source@.len() <= MAX_BVH_TRIANGLES,
        ensures
            exists|tree: Tree| #[trigger]
                is_hierarchy(
                    tree,
                    self.model(),
                    prepared(source@, self.model()),
                    hierarchy.0@,
                    hierarchy.1@,
                ),
            boxes_hold_triangles(hierarchy.1@, hierarchy.0@),
            root_reaches_all(hierarchy.1@, hierarchy.0@),
            packs_all(hierarchy.0@, source@),
    {
        let mut items: Vec<BuildTriangle> = Vec::new();
        let mut next: usize = 0;
        while next < source.len()
            invariant
                self.wf(),
                next <= source@.len(),
                items@ == prepared(source@.take(next as int), self.model()),
            decreases source@.len() - next,
        {
            let triangle = source[next];
            items.push(
                BuildTriangle {
                    triangle,
                    bounds_min: triangle.v0.min(triangle.v1).min(triangle.v2),
                    bounds_max: triangle.v0.max(triangle.v1).max(triangle.v2),
                    centroid: self.mean(triangle.v0, triangle.v1, triangle.v2),
                },
            );
            assert(items@ =~= prepared(source@.take(next + 1), self.model()));
            next += 1;
        }
        assert(source@.take(next as int) =~= source@);
        let mut ordered: Vec<GpuTriangle> = Vec::new();
        let mut nodes: Vec<GpuBvhNode> = Vec::new();
        let ghost items0 = items@;
        let count: usize = items.len();
        let (root, Ghost(tree)) = self.build_bvh_node(
            &mut items,
            0,
            count,
            &mut ordered,
            &mut nodes,
            0,
        );
        proof {
            assert(items@.subrange(0, count as int) =~= items@);
            assert(items0.subrange(0, count as int) =~= items0);
            assert(ordered@ =~= gpu_triangles(tree.items()));
            assert(nodes@ =~= tree.layout(0, 0));
        }
        let hierarchy = (ordered, nodes);
        proof {
            lemma_is_hierarchy(tree, self.model(), items0, hierarchy.0@, hierarchy.1@);
            lemma_boxes_hold_their_triangles(
                tree,
                self.model(),
                source@,
                hierarchy.0@,
                hierarchy.1@,
            );
        }
        hierarchy
    }
}

/// `source` with boxes and centroids.
pub open spec fn prepared(source: Seq<Triangle>, model: ArithmeticModel) -> Seq<BuildTriangle> {
    source.map_values(
        |triangle: Triangle|
            BuildTriangle {
                triangle,
                bounds_min: triangle.v0.min_spec(triangle.v1).min_spec(triangle.v2),
                bounds_max: triangle.v0.max_spec(triangle.v1).max_spec(triangle.v2),
                centroid: model.mean(triangle.v0, triangle.v1, triangle.v2),
            },
    )
}

/// `tree` holds each of `items` once, follows the construction rules, and is
/// what `triangles` and `nodes` lay out.
pub open spec fn is_hierarchy(
    tree: Tree,
    model: ArithmeticModel,
    items: Seq<BuildTriangle>,
    triangles: Seq<GpuTriangle>,
    nodes: Seq<GpuBvhNode>,
) -> bool {
    &&& tree.built(model, 0)
    &&& tree.items().to_multiset() == items.to_multiset()
    &&& triangles == gpu_triangles(tree.items())
    &&& nodes == tree.layout(0, 0)
}

/// A tree that is laid out shows that there is one.
proof fn lemma_is_hierarchy(
    tree: Tree,
    model: ArithmeticModel,
    items: Seq<BuildTriangle>,
    triangles: Seq<GpuTriangle>,
    nodes: Seq<GpuBvhNode>,
)
    requires
        is_hierarchy(tree, model, items, triangles, nodes),
    ensures
        exists|some: Tree| #[trigger] is_hierarchy(some, model, items, triangles, nodes),
{
}

/// Whether a walk from node `index` comes to the triangle at `position`: a leaf
/// has it among its own, and an inner node leads to the walks of its children.
/// Children are followed only where they are nodes behind their parent.
pub open spec fn reaches(nodes: Seq<GpuBvhNode>, index: int, position: int) -> bool
    decreases nodes.len() - index,
{
    let node = nodes[index];
    if node.triangle_count > 0 {
        node.child_or_first <= position < node.child_or_first + node.triangle_count
    } else if !(index < node.child_or_first < nodes.len()) || !(index < node.child_b < nodes.len()) {
        false
    } else {
        reaches(nodes, node.child_or_first as int, position) || reaches(
            nodes,
            node.child_b as int,
            position,
        )
    }
}

/// Whether a number, if it is one, lies between two others.
pub open spec fn lies_between(low: Scalar, number: Scalar, high: Scalar) -> bool {
    number.is_nan_spec() || (!low.is_nan_spec() && !high.is_nan_spec() && low.rank()
        <= number.rank() <= high.rank())
}

/// Whether the box of a node holds a corner of a triangle.
pub open spec fn box_holds(node: GpuBvhNode, corner: Vec4) -> bool {
    &&& lies_between(node.bounds_min.x, corner.x, node.bounds_max.x)
    &&& lies_between(node.bounds_min.y, corner.y, node.bounds_max.y)
    &&& lies_between(node.bounds_min.z, corner.z, node.bounds_max.z)
}

/// Whether the box of every node holds all three corners of every triangle that a
/// walk from that node comes to.
pub open spec fn boxes_hold_triangles(
    nodes: Seq<GpuBvhNode>,
    triangles: Seq<GpuTriangle>,
) -> bool {
    forall|index: int, position: int|
        0 <= index < nodes.len() && 0 <= position < triangles.len() && #[trigger] reaches(
            nodes,
            index,
            position,
        ) ==> {
            &&& box_holds(nodes[index], triangles[position].v0)
            &&& box_holds(nodes[index], triangles[position].v1)
            &&& box_holds(nodes[index], triangles[position].v2)
        }
}

/// Whether a walk from the root comes to every triangle.
pub open spec fn root_reaches_all(nodes: Seq<GpuBvhNode>, triangles: Seq<GpuTriangle>) -> bool {
    &&& nodes.len() > 0
    &&& forall|position: int|
        0 <= position < triangles.len() ==> #[trigger] reaches(nodes, 0, position)
}

/// A triangle in the renderer's buffer has the corners, the normal and the color of
/// a triangle of a mesh, and zeros behind them.
pub open spec fn packs(packed: GpuTriangle, triangle: Triangle) -> bool {
    let zero = Scalar { bits: 0 };
    &&& packed.v0 == Vec4 { x: triangle.v0.x, y: triangle.v0.y, z: triangle.v0.z, w: zero }
    &&& packed.v1 == Vec4 { x: triangle.v1.x, y: triangle.v1.y, z: triangle.v1.z, w: zero }
    &&& packed.v2 == Vec4 { x: triangle.v2.x, y: triangle.v2.y, z: triangle.v2.z, w: zero }
    &&& packed.normal == Vec4 {
        x: triangle.normal.x,
        y: triangle.normal.y,
        z: triangle.normal.z,
        w: zero,
    }
    &&& packed.color == Vec4 {
        x: triangle.color.x,
        y: triangle.color.y,
        z: triangle.color.z,
        w: zero,
    }
}

/// Whether `triangles` are those of `source` in another order, each of them once.
pub open spec fn packs_all(triangles: Seq<GpuTriangle>, source: Seq<Triangle>) -> bool {
    exists|order: Seq<Triangle>|
        #![trigger order.to_multiset()]
        {
            &&& order.to_multiset() == source.to_multiset()
            &&& order.len() == triangles.len()
            &&& forall|i: int| 0 <= i < order.len() ==> packs(#[trigger] triangles[i], order[i])
        }
}

/// A node of a tree that lies in a list of nodes comes to the triangles of the tree
/// and to no others.
proof fn lemma_reached_from_the_root(
    tree: Tree,
    model: ArithmeticModel,
    depth: nat,
    nodes: Seq<GpuBvhNode>,
    m: nat,
    n: nat,
    position: int,
)
    requires
        tree.built(model, depth),
        nodes.len() <= u32::MAX,
        n + tree.items().len() <= u32::MAX,
        m + tree.node_count() <= nodes.len(),
        nodes.subrange(m as int, (m + tree.node_count()) as int) == tree.layout(m, n),
    ensures
        reaches(nodes, m as int, position) <==> n <= position < n + tree.items().len(),
    decreases tree,
{
    let mine = tree.layout(m, n);
    lemma_node_count(tree, model, depth, m, n);
    assert(nodes[m as int] == mine[0]);
    if let Tree::Inner { left, right, .. } = tree {
        lemma_children_lie_behind(tree, model, depth, nodes, m, n);
        let l = left.node_count();
        lemma_reached_from_the_root(*left, model, depth + 1, nodes, m + 1, n, position);
        lemma_reached_from_the_root(
            *right,
            model,
            depth + 1,
            nodes,
            m + 1 + l,
            n + left.items().len(),
            position,
        );
        lemma_node_count(*left, model, depth + 1, m + 1, n);
        lemma_node_count(*right, model, depth + 1, m + 1 + l, n + left.items().len());
    } else {
        assert(tree->held.len() as u32 > 0);
    }
}

/// The layouts of the children of a tree lie behind its root.
proof fn lemma_children_lie_behind(
    tree: Tree,
    model: ArithmeticModel,
    depth: nat,
    nodes: Seq<GpuBvhNode>,
    m: nat,
    n: nat,
)
    requires
        tree is Inner,
        tree.built(model, depth),
        m + tree.node_count() <= nodes.len(),
        nodes.subrange(m as int, (m + tree.node_count()) as int) == tree.layout(m, n),
    ensures
        ({
            let left = *tree->left;
            let right = *tree->right;
            let l = left.node_count();
            &&& nodes.subrange((m + 1) as int, (m + 1 + l) as int) == left.layout(m + 1, n)
            &&& nodes.subrange((m + 1 + l) as int, (m + 1 + l + right.node_count()) as int)
                == right.layout(m + 1 + l, n + left.items().len())
        }),
{
    let mine = tree.layout(m, n);
    let left = *tree->left;
    let right = *tree->right;
    let l = left.node_count();
    lemma_node_count(tree, model, depth, m, n);
    lemma_node_count(left, model, depth + 1, m + 1, n);
    lemma_node_count(right, model, depth + 1, m + 1 + l, n + left.items().len());
    assert(nodes.subrange((m + 1) as int, (m + 1 + l) as int) =~= left.layout(m + 1, n)) by {
        assert forall|i: int| 0 <= i < l implies nodes[m + 1 + i] == #[trigger] left.layout(
            m + 1,
            n,
        )[i] by {
            assert(nodes[m + 1 + i] == mine[1 + i]);
        }
    }
    assert(nodes.subrange((m + 1 + l) as int, (m + 1 + l + right.node_count()) as int)
        =~= right.layout(m + 1 + l, n + left.items().len())) by {
        assert forall|i: int| 0 <= i < right.node_count() implies nodes[m + 1 + l + i]
            == #[trigger] right.layout(m + 1 + l, n + left.items().len())[i] by {
            assert(nodes[m + 1 + l + i] == mine[1 + l + i]);
        }
    }
}

/// The box that was kept beside a triangle holds its corners.
pub open spec fn is_boxed(item: BuildTriangle) -> bool {
    forall|axis: int|
        0 <= axis < 3 ==> {
            let low = #[trigger] item.bounds_min.axis_spec(axis);
            let high = item.bounds_max.axis_spec(axis);
            &&& lies_between(low, item.triangle.v0.axis_spec(axis), high)
            &&& lies_between(low, item.triangle.v1.axis_spec(axis), high)
            &&& lies_between(low, item.triangle.v2.axis_spec(axis), high)
        }
}

/// The box stored in a node of a tree holds the corners of a triangle that a walk
/// from that node comes to.
proof fn lemma_box_holds_reached(
    tree: Tree,
    model: ArithmeticModel,
    depth: nat,
    nodes: Seq<GpuBvhNode>,
    m: nat,
    n: nat,
    index: int,
    position: int,
)
    requires
        tree.built(model, depth),
        nodes.len() <= u32::MAX,
        n + tree.items().len() <= u32::MAX,
        m + tree.node_count() <= nodes.len(),
        nodes.subrange(m as int, (m + tree.node_count()) as int) == tree.layout(m, n),
        m <= index < m + tree.node_count(),
        reaches(nodes, index, position),
        forall|i: int| 0 <= i < tree.items().len() ==> is_boxed(#[trigger] tree.items()[i]),
    ensures
        n <= position < n + tree.items().len(),
        ({
            let triangle = tree.items()[position - n].triangle;
            &&& box_holds(nodes[index], triangle.v0.extend_spec())
            &&& box_holds(nodes[index], triangle.v1.extend_spec())
            &&& box_holds(nodes[index], triangle.v2.extend_spec())
        }),
    decreases tree,
{
    lemma_reached_from_the_root(tree, model, depth, nodes, m, n, position);
    lemma_node_count(tree, model, depth, m, n);
    let items = tree.items();
    if index == m {
        let node = nodes[index];
        assert(node == tree.layout(m, n)[0]);
        let item = items[position - n];
        lemma_box_encloses(tree, model, depth, position - n);
        assert(is_boxed(item));
        assert forall|axis: int| 0 <= axis < 3 implies {
            let low = #[trigger] tree.low().axis_spec(axis);
            let high = tree.high().axis_spec(axis);
            &&& lies_between(low, item.triangle.v0.axis_spec(axis), high)
            &&& lies_between(low, item.triangle.v1.axis_spec(axis), high)
            &&& lies_between(low, item.triangle.v2.axis_spec(axis), high)
        } by {
            let low = item.bounds_min.axis_spec(axis);
            let high = item.bounds_max.axis_spec(axis);
            assert(lies_between(low, item.triangle.v0.axis_spec(axis), high));
            assert(!low.is_nan_spec() ==> tree.low().axis_spec(axis).le_spec(low));
            assert(!high.is_nan_spec() ==> high.le_spec(tree.high().axis_spec(axis)));
        }
        assert(tree.low().axis_spec(0) == node.bounds_min.x);
        assert(tree.low().axis_spec(1) == node.bounds_min.y);
        assert(tree.low().axis_spec(2) == node.bounds_min.z);
    } else if let Tree::Inner { left, right, .. } = tree {
        lemma_children_lie_behind(tree, model, depth, nodes, m, n);
        let l = left.node_count();
        if index < m + 1 + l {
            assert forall|i: int| 0 <= i < left.items().len() implies is_boxed(
                #[trigger] left.items()[i],
            ) by {
                assert(left.items()[i] == items[i]);
            }
            lemma_box_holds_reached(*left, model, depth + 1, nodes, m + 1, n, index, position);
        } else {
            let skipped = left.items().len();
            assert forall|i: int| 0 <= i < right.items().len() implies is_boxed(
                #[trigger] right.items()[i],
            ) by {
                assert(right.items()[i] == items[skipped + i]);
            }
            lemma_box_holds_reached(
                *right,
                model,
                depth + 1,
                nodes,
                m + 1 + l,
                n + skipped,
                index,
                position,
            );
        }
    }
}

/// Each node of a hierarchy has a box around every triangle that lies below it,
/// corner by corner, so that a ray that misses the box misses the triangles; and
/// every triangle lies below the root.  The triangles are those that the hierarchy
/// was asked for, each of them once and unchanged.
pub proof fn lemma_boxes_hold_their_triangles(
    tree: Tree,
    model: ArithmeticModel,
    source: Seq<Triangle>,
    triangles: Seq<GpuTriangle>,
    nodes: Seq<GpuBvhNode>,
)
    requires
        0 < source.len() <= MAX_BVH_TRIANGLES,
        is_hierarchy(tree, model, prepared(source, model), triangles, nodes),
    ensures
        boxes_hold_triangles(nodes, triangles),
        root_reaches_all(nodes, triangles),
        packs_all(triangles, source),
{
    let items = prepared(source, model);
    let order = tree.items().map_values(|item: BuildTriangle| item.triangle);
    lemma_node_count(tree, model, 0, 0, 0);
    lemma_permutation_len(tree.items(), items);
    assert(nodes.subrange(0, tree.node_count() as int) =~= nodes);
    assert forall|i: int| 0 <= i < tree.items().len() implies is_boxed(
        #[trigger] tree.items()[i],
    ) by {
        lemma_permutation_contains(tree.items(), items, i);
        let at = choose|at: int| 0 <= at < items.len() && items[at] == tree.items()[i];
        lemma_prepared_is_boxed(source[at], items[at]);
    }
    assert forall|index: int, position: int|
        0 <= index < nodes.len() && 0 <= position < triangles.len() && #[trigger] reaches(
            nodes,
            index,
            position,
        ) implies {
        &&& box_holds(nodes[index], triangles[position].v0)
        &&& box_holds(nodes[index], triangles[position].v1)
        &&& box_holds(nodes[index], triangles[position].v2)
    } by {
        lemma_box_holds_reached(tree, model, 0, nodes, 0, 0, index, position);
    }
    assert forall|position: int| 0 <= position < triangles.len() implies #[trigger] reaches(
        nodes,
        0,
        position,
    ) by {
        lemma_reached_from_the_root(tree, model, 0, nodes, 0, 0, position);
    }
    lemma_map_keeps_permutation(
        tree.items(),
        items,
        |item: BuildTriangle| item.triangle,
    );
    assert(items.map_values(|item: BuildTriangle| item.triangle) =~= source);
    assert(order.to_multiset() == source.to_multiset());
}

/// The box around three corners holds each of them.
proof fn lemma_prepared_is_boxed(triangle: Triangle, item: BuildTriangle)
    requires
        item.triangle == triangle,
        item.bounds_min == triangle.v0.min_spec(triangle.v1).min_spec(triangle.v2),
        item.bounds_max == triangle.v0.max_spec(triangle.v1).max_spec(triangle.v2),
    ensures
        is_boxed(item),
{
}

/// What the construction reads of a triangle: the box around its three corners and the mean
/// of them.
pub proof fn lemma_triangles_are_prepared(source: Seq<Triangle>, model: ArithmeticModel, i: int)
    requires
        0 <= i < source.len(),
    ensures
        ({
            let item = prepared(source, model)[i];
            let t = source[i];
            let third = |a: Scalar, b: Scalar, c: Scalar|
                (model.compute)(
                    Operation::Quotient,
                    (model.compute)(Operation::Sum, (model.compute)(Operation::Sum, a, b), c),
                    Scalar { bits: 0x4040_0000 },
                );
            &&& prepared(source, model).len() == source.len()
            &&& item.triangle == t
            &&& item.centroid.x == third(t.v0.x, t.v1.x, t.v2.x)
            &&& item.centroid.y == third(t.v0.y, t.v1.y, t.v2.y)
            &&& item.centroid.z == third(t.v0.z, t.v1.z, t.v2.z)
            &&& is_boxed(item)
        }),
{
    lemma_prepared_is_boxed(source[i], prepared(source, model)[i]);
}

/// How triangles are divided.  A leaf has from one to four of them.  More are divided by
/// the cheapest split, less than 32 levels below the root and where there is one, so that
/// those of lower bins come first; else into halves along the axis on which the centroids
/// spread most, so that those of lower centroids come first.
pub proof fn lemma_triangles_are_divided_in_order(
    model: ArithmeticModel,
    depth: nat,
    whole: Seq<BuildTriangle>,
    bounds_min: Vec3,
    bounds_max: Vec3,
    left: Seq<BuildTriangle>,
    right: Seq<BuildTriangle>,
)
    requires
        divides(model, depth, whole, bounds_min, bounds_max, left, right),
    ensures
        whole.len() > 4,
        ({
            let low = least(centroids(whole));
            let high = greatest(centroids(whole));
            let found = model.sah_split_spec(whole, low, high);
            let along = |item: BuildTriangle, axis: int| if axis == 0 {
                item.centroid.x
            } else if axis == 1 {
                item.centroid.y
            } else {
                item.centroid.z
            };
            &&& depth < 32 && found is Some ==> {
                &&& left.len() == found.unwrap().1
                &&& forall|i: int, j: int|
                    0 <= i < left.len() && 0 <= j < right.len() ==> model.bin_of(
                        (#[trigger] left[i]).centroid,
                        low,
                        high,
                        found.unwrap().0 as int,
                    ) <= model.bin_of(
                        (#[trigger] right[j]).centroid,
                        low,
                        high,
                        found.unwrap().0 as int,
                    )
            }
            &&& depth >= 32 || found is None ==> {
                let axis = longest_axis_spec(model.extents(low, high));
                &&& left.len() == whole.len() / 2
                &&& forall|i: int, j: int|
                    0 <= i < left.len() && 0 <= j < right.len() && !along(
                        #[trigger] left[i],
                        axis,
                    ).is_nan_spec() && !along(#[trigger] right[j], axis).is_nan_spec() ==> along(
                        left[i],
                        axis,
                    ).rank() <= along(right[j], axis).rank()
            }
        }),
{
    let division = division(model, whole, depth);
    assert forall|i: int, j: int|
        0 <= i < left.len() && 0 <= j < right.len() implies division.key(model, #[trigger] left[i])
        <= division.key(model, #[trigger] right[j]) by {}
}

/// The sizes of leaves, and how deep a hierarchy can be.
pub proof fn lemma_leaves_are_small(tree: Tree, model: ArithmeticModel, depth: nat)
    requires
        tree.built(model, depth),
    ensures
        tree matches Tree::Leaf { held, .. } ==> 1 <= held.len() <= 4,
        depth == 0 && tree.items().len() <= u32::MAX ==> tree.height() <= 64,
{
    if depth == 0 && tree.items().len() <= u32::MAX {
        lemma_height_fits_shader_stack(tree, model);
    }
}

} // verus!
