//! The node type shared by the parser and the renderers.

use vstd::prelude::*;
use crate::text::views_of;

verus! {

/// One node of a tree: a label of one or more display lines, and the
/// children in source order.
#[derive(Debug)]
pub struct TreeNode {
    pub lines: Vec<String>,
    pub children: Vec<TreeNode>,
}

/// The mathematical value of a node: its label lines as character
/// sequences, and the values of its children.
pub struct Tree {
    pub lines: Seq<Seq<char>>,
    pub children: Seq<Tree>,
}

/// Number of nodes in the first `n` of the trees `ts`.
pub open spec fn trees_size(ts: Seq<Tree>, n: nat) -> nat
    decreases ts, n,
{
    if n == 0 || n > ts.len() {
        0
    } else {
        trees_size(ts, (n - 1) as nat) + ts[n - 1].size()
    }
}

impl Tree {
    /// Number of nodes in the tree, the root included.
    pub open spec fn size(&self) -> nat
        decreases self,
    {
        1 + trees_size(self.children, self.children.len())
    }
}

/// The nodes of two forests, one after the other, are the nodes of both.
pub proof fn lemma_trees_size_concat(a: Seq<Tree>, b: Seq<Tree>, n: nat)
    requires
        n <= b.len(),
    ensures
        trees_size(a + b, a.len() + n) == trees_size(a, a.len()) + trees_size(b, n),
    decreases n,
{
    if n > 0 {
        lemma_trees_size_concat(a, b, (n - 1) as nat);
    } else {
        lemma_trees_size_prefix(a + b, a, a.len());
    }
}

/// The node count of the first `n` trees depends on those trees only.
pub proof fn lemma_trees_size_prefix(a: Seq<Tree>, b: Seq<Tree>, n: nat)
    requires
        n <= a.len(),
        n <= b.len(),
        forall|i: int| 0 <= i < n ==> a[i] == b[i],
    ensures
        trees_size(a, n) == trees_size(b, n),
    decreases n,
{
    if n > 0 {
        lemma_trees_size_prefix(a, b, (n - 1) as nat);
    }
}

/// The values of the first `n` trees of `forest`.
pub open spec fn forest_view_upto(forest: Seq<TreeNode>, n: nat) -> Seq<Tree>
    decreases forest, n,
{
    if n == 0 || n > forest.len() {
        Seq::empty()
    } else {
        forest_view_upto(forest, (n - 1) as nat).push(forest[n - 1].view())
    }
}

/// The values of the trees of `forest`.
pub open spec fn forest_view(forest: Seq<TreeNode>) -> Seq<Tree> {
    forest_view_upto(forest, forest.len())
}

/// The values of the first `n` trees depend on those trees only.
pub proof fn lemma_forest_prefix(a: Seq<TreeNode>, b: Seq<TreeNode>, n: nat)
    requires
        n <= a.len(),
        n <= b.len(),
        forall|i: int| 0 <= i < n ==> a[i] == b[i],
    ensures
        forest_view_upto(a, n) == forest_view_upto(b, n),
    decreases n,
{
    if n > 0 {
        lemma_forest_prefix(a, b, (n - 1) as nat);
    }
}

/// The values of a forest are the values of its trees, one for one.
pub proof fn lemma_forest_view_index(forest: Seq<TreeNode>, n: nat)
    requires
        n <= forest.len(),
    ensures
        forest_view_upto(forest, n).len() == n,
        forall|i: int| 0 <= i < n ==> (#[trigger] forest_view_upto(forest, n)[i]) == forest[i].view(),
    decreases n,
{
    if n > 0 {
        lemma_forest_view_index(forest, (n - 1) as nat);
    }
}

/// Appending a tree appends its value.
pub proof fn lemma_forest_push(forest: Seq<TreeNode>, node: TreeNode)
    ensures
        forest_view(forest.push(node)) == forest_view(forest).push(node.view()),
{
    lemma_forest_prefix(forest.push(node), forest, forest.len());
}

impl TreeNode {
    /// The mathematical value of the subtree.
    pub open spec fn view(&self) -> Tree
        decreases self,
    {
        Tree {
            lines: views_of(self.lines@),
            children: forest_view_upto(self.children@, self.children@.len()),
        }
    }

    /// The value of a node holds the values of its children, one for one.
    pub proof fn lemma_view_children(&self)
        ensures
            self.view().children.len() == self.children@.len(),
            self.view().lines.len() == self.lines@.len(),
            forall|i: int|
                0 <= i < self.children@.len() ==> (#[trigger] self.view().children[i])
                    == self.children@[i].view(),
    {
        lemma_forest_view_index(self.children@, self.children@.len());
    }

    /// Every node of the subtree carries at least one label line.
    pub open spec fn wf(&self) -> bool
        decreases self,
    {
        &&& self.lines@.len() > 0
        &&& forall|i: int|
            0 <= i < self.children@.len() ==> (#[trigger] self.children@[i]).wf()
    }

    /// A node without children.
    pub fn leaf(lines: Vec<String>) -> (node: TreeNode)
        requires
            lines@.len() > 0,
        ensures
            node.lines == lines,
            node.children@.len() == 0,
            node.wf(),
            node.view() == (Tree { lines: views_of(lines@), children: Seq::empty() }),
    {
        TreeNode { lines, children: Vec::new() }
    }
}

} // verus!
