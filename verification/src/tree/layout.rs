//! Sizing and placement: how wide and tall each subtree is, and where each
//! child stands inside the span of its parent.
//!
//! All positions are columns relative to the left edge of the span of the
//! node they are stated for.

use vstd::prelude::*;
use vstd::string::StrSliceExecFns;
use crate::tree::tree_node::{Tree, TreeNode};

verus! {

/// Length of the longest of the first `n` lines, in characters.
pub open spec fn content_width(lines: Seq<Seq<char>>, n: nat) -> nat
    decreases n,
{
    if n == 0 || n > lines.len() {
        0
    } else {
        let rest = content_width(lines, (n - 1) as nat);
        let here = lines[n - 1].len();
        if here > rest {
            here
        } else {
            rest
        }
    }
}

impl Tree {
    /// Width of the node's box: the longest line, one column of padding and
    /// one border column on each side.
    pub open spec fn box_width(&self) -> nat {
        content_width(self.lines, self.lines.len()) + 4
    }

    /// Number of text rows in the box. A node without lines shows one blank row.
    pub open spec fn text_rows(&self) -> nat {
        if self.lines.len() == 0 {
            1
        } else {
            self.lines.len()
        }
    }

    /// Height of the node's box: its text rows and the two border rows.
    pub open spec fn box_height(&self) -> nat {
        self.text_rows() + 2
    }

    /// Left edge of the span of child `i`, counted from the left edge of
    /// the first child.
    pub open spec fn child_x(&self, spacing: nat, i: nat) -> nat
        decreases self, i,
    {
        if i == 0 || i >= self.children.len() {
            0
        } else {
            self.child_x(spacing, (i - 1) as nat) + self.children[i - 1].subtree_width(spacing)
                + spacing
        }
    }

    /// Columns taken by the first `n` children and the gaps between them.
    pub open spec fn children_span(&self, spacing: nat, n: nat) -> nat
        decreases self, n,
    {
        if n == 0 || n > self.children.len() {
            0
        } else {
            self.child_x(spacing, (n - 1) as nat) + self.children[n - 1].subtree_width(spacing)
        }
    }

    /// Width of the span reserved for the node and all its descendants.
    pub open spec fn subtree_width(&self, spacing: nat) -> nat
        decreases self, self.children.len() + 1,
    {
        let own = self.box_width();
        let below = self.children_span(spacing, self.children.len());
        if own > below {
            own
        } else {
            below
        }
    }

    /// Height of the tallest of the first `n` children's subtrees.
    pub open spec fn tallest_child(&self, n: nat) -> nat
        decreases self, n,
    {
        if n == 0 || n > self.children.len() {
            0
        } else {
            let rest = self.tallest_child((n - 1) as nat);
            let here = self.children[n - 1].total_height();
            if here > rest {
                here
            } else {
                rest
            }
        }
    }

    /// Rows taken by the node's box, the connector row and the subtrees below.
    pub open spec fn total_height(&self) -> nat
        decreases self, self.children.len() + 1,
    {
        if self.children.len() == 0 {
            self.box_height()
        } else {
            self.box_height() + 1 + self.tallest_child(self.children.len())
        }
    }

    /// Left edge of the node's box inside its span: the box is centred, the
    /// smaller half of the spare columns to its left.
    pub open spec fn box_left(&self, spacing: nat) -> nat {
        ((self.subtree_width(spacing) - self.box_width()) / 2) as nat
    }

    /// Column of the centre of the node's box.
    pub open spec fn center(&self, spacing: nat) -> nat {
        self.box_left(spacing) + self.box_width() / 2
    }

    /// Left edge of the first child's span: the children are centred as a
    /// block in the span of their parent, the smaller half of the spare
    /// columns to their left.
    pub open spec fn children_left(&self, spacing: nat) -> nat {
        ((self.subtree_width(spacing) - self.children_span(spacing, self.children.len()))
            / 2) as nat
    }

    /// Left edge of the span of child `i`.
    pub open spec fn child_pos(&self, spacing: nat, i: nat) -> nat {
        self.children_left(spacing) + self.child_x(spacing, i)
    }

    /// Column, in the parent's span, of the centre of child `i`.
    pub open spec fn child_center(&self, spacing: nat, i: nat) -> nat
        recommends
            i < self.children.len(),
    {
        self.child_pos(spacing, i) + self.children[i as int].center(spacing)
    }

    /// The grid of the subtree can be indexed by machine integers.
    pub open spec fn fits(&self, spacing: nat) -> bool {
        &&& self.subtree_width(spacing) <= usize::MAX
        &&& self.total_height() <= usize::MAX
    }
}

/// Adding child `n` extends the children's span by its width, and by one gap
/// if it is not the first.
pub proof fn lemma_span_step(node: Tree, spacing: nat, n: nat)
    requires
        n < node.children.len(),
    ensures
        node.children_span(spacing, n + 1) == node.children_span(spacing, n) + (if n > 0 {
            spacing
        } else {
            0
        }) + node.children[n as int].subtree_width(spacing),
        node.child_x(spacing, n) == node.children_span(spacing, n) + (if n > 0 {
            spacing
        } else {
            0
        }),
{
    reveal_with_fuel(Tree::child_x, 2);
    reveal_with_fuel(Tree::children_span, 2);
}

/// The children's span grows with the number of children counted.
pub proof fn lemma_span_monotone(node: Tree, spacing: nat, i: nat, j: nat)
    requires
        i <= j <= node.children.len(),
    ensures
        node.children_span(spacing, i) <= node.children_span(spacing, j),
    decreases j - i,
{
    if i < j {
        lemma_span_monotone(node, spacing, i, (j - 1) as nat);
        lemma_span_step(node, spacing, (j - 1) as nat);
    }
}

/// A node's box never overflows the span reserved for it, and the span
/// covers all of its children.
pub proof fn lemma_subtree_width_bounds(node: Tree, spacing: nat)
    ensures
        node.subtree_width(spacing) >= node.box_width(),
        node.subtree_width(spacing) >= node.children_span(spacing, node.children.len()),
        node.box_left(spacing) + node.box_width() <= node.subtree_width(spacing),
        node.center(spacing) < node.subtree_width(spacing),
{
}

/// A node without children is exactly as wide as its box: the longest line
/// and four columns of padding and border.
pub proof fn lemma_leaf_width(node: Tree, spacing: nat)
    requires
        node.children.len() == 0,
    ensures
        node.subtree_width(spacing) == content_width(node.lines, node.lines.len()) + 4,
        node.subtree_width(spacing) == node.box_width(),
        node.box_left(spacing) == 0,
{
}

/// The span of every child lies inside the span of its parent.
pub proof fn lemma_child_inside(node: Tree, spacing: nat, i: nat)
    requires
        i < node.children.len(),
    ensures
        node.child_pos(spacing, i) + node.children[i as int].subtree_width(spacing)
            <= node.subtree_width(spacing),
        node.child_center(spacing, i) < node.subtree_width(spacing),
        i + 1 < node.children.len() ==> node.child_pos(spacing, i + 1) == node.child_pos(spacing, i)
            + node.children[i as int].subtree_width(spacing) + spacing,
{
    if i + 1 < node.children.len() {
        lemma_span_step(node, spacing, i + 1);
    }
    lemma_span_step(node, spacing, i);
    lemma_span_monotone(node, spacing, i + 1, node.children.len());
    lemma_subtree_width_bounds(node, spacing);
    lemma_subtree_width_bounds(node.children[i as int], spacing);
}

/// Sibling spans never share a column: each child ends, and the gap after
/// it too, before the next one starts. This holds for every spacing, zero
/// included.
pub proof fn lemma_siblings_disjoint(node: Tree, spacing: nat, i: nat, j: nat)
    requires
        i < j < node.children.len(),
    ensures
        node.child_x(spacing, i) + node.children[i as int].subtree_width(spacing) + spacing
            <= node.child_x(spacing, j),
        node.child_pos(spacing, i) + node.children[i as int].subtree_width(spacing) + spacing
            <= node.child_pos(spacing, j),
    decreases j - i,
{
    lemma_span_step(node, spacing, i);
    lemma_span_step(node, spacing, j);
    if i + 1 < j {
        lemma_siblings_disjoint(node, spacing, i, (j - 1) as nat);
        lemma_span_step(node, spacing, (j - 1) as nat);
    } else {
        lemma_span_step(node, spacing, (i + 1) as nat);
    }
}

/// The boxes of two siblings never share a column either: each box stands
/// inside the span of its own node.
pub proof fn lemma_sibling_boxes_disjoint(node: Tree, spacing: nat, i: nat, j: nat)
    requires
        i < j < node.children.len(),
    ensures
        node.child_pos(spacing, i) + node.children[i as int].box_left(spacing)
            + node.children[i as int].box_width() + spacing <= node.child_pos(spacing, j)
            + node.children[j as int].box_left(spacing),
{
    lemma_siblings_disjoint(node, spacing, i, j);
    lemma_subtree_width_bounds(node.children[i as int], spacing);
}

/// The tallest child grows with the number of children counted.
pub proof fn lemma_tallest_monotone(node: Tree, i: nat, j: nat)
    requires
        i <= j <= node.children.len(),
    ensures
        node.tallest_child(i) <= node.tallest_child(j),
        i < j ==> node.children[i as int].total_height() <= node.tallest_child(j),
    decreases j - i,
{
    if i < j {
        lemma_tallest_monotone(node, i, (j - 1) as nat);
        reveal_with_fuel(Tree::tallest_child, 2);
    }
}

/// Where a node's grid can be indexed by machine integers, so can the grid
/// of each of its children.
pub proof fn lemma_child_fits(node: Tree, spacing: nat, i: nat)
    requires
        node.fits(spacing),
        i < node.children.len(),
    ensures
        node.children[i as int].fits(spacing),
        node.children[i as int].total_height() + node.box_height() + 1 <= node.total_height(),
{
    lemma_child_inside(node, spacing, i);
    lemma_tallest_monotone(node, i, node.children.len());
}

impl TreeNode {
    /// Length of the longest line, in characters.
    pub fn longest_line(&self) -> (w: usize)
        ensures
            w == content_width(self.view().lines, self.view().lines.len()),
    {
        let mut w: usize = 0;
        let n: usize = self.lines.len();
        let mut i: usize = 0;
        while i < n
            invariant
                i <= n,
                n == self.lines@.len(),
                w == content_width(self.view().lines, i as nat),
            decreases n - i,
        {
            let here: usize = self.lines[i].as_str().unicode_len();
            if here > w {
                w = here;
            }
            i += 1;
        }
        w
    }

    /// The columns taken by the children and the gaps between them, or
    /// `None` where they exceed the machine's integers.
    pub fn measure_children(&self, spacing: usize) -> (r: Option<usize>)
        ensures
            r is Some <==> self.view().children_span(spacing as nat, self.view().children.len())
                <= usize::MAX,
            r is Some ==> r.unwrap() == self.view().children_span(
                spacing as nat,
                self.view().children.len(),
            ),
        decreases self, 0nat,
    {
        let n: usize = self.children.len();
        proof {
            self.lemma_view_children();
        }
        let mut span: usize = 0;
        let mut i: usize = 0;
        while i < n
            invariant
                i <= n,
                n == self.children@.len(),
                n == self.view().children.len(),
                span == self.view().children_span(spacing as nat, i as nat),
            decreases n - i,
        {
            proof {
                self.lemma_view_children();
                lemma_span_step(self.view(), spacing as nat, i as nat);
                lemma_span_monotone(self.view(), spacing as nat, (i + 1) as nat, n as nat);
            }
            let gap: usize = if i > 0 {
                spacing
            } else {
                0
            };
            let child: usize = match self.children[i].measure_width(spacing) {
                Some(w) => w,
                None => {
                    return None;
                },
            };
            let gapped: usize = match span.checked_add(gap) {
                Some(v) => v,
                None => {
                    return None;
                },
            };
            span = match gapped.checked_add(child) {
                Some(v) => v,
                None => {
                    return None;
                },
            };
            i += 1;
        }
        Some(span)
    }

    /// The width of the subtree's span, or `None` where it exceeds the
    /// machine's integers.
    pub fn measure_width(&self, spacing: usize) -> (r: Option<usize>)
        ensures
            r is Some <==> self.view().subtree_width(spacing as nat) <= usize::MAX,
            r is Some ==> r.unwrap() == self.view().subtree_width(spacing as nat),
        decreases self, 1nat,
    {
        let span: usize = match self.measure_children(spacing) {
            Some(v) => v,
            None => {
                return None;
            },
        };
        match self.longest_line().checked_add(4) {
            Some(own) => Some(
                if own > span {
                    own
                } else {
                    span
                },
            ),
            None => None,
        }
    }

    /// The height of the subtree's grid, or `None` where it exceeds the
    /// machine's integers.
    pub fn measure_height(&self) -> (r: Option<usize>)
        ensures
            r is Some <==> self.view().total_height() <= usize::MAX,
            r is Some ==> r.unwrap() == self.view().total_height(),
        decreases self,
    {
        let n: usize = self.children.len();
        proof {
            self.lemma_view_children();
        }
        let mut tallest: usize = 0;
        let mut i: usize = 0;
        while i < n
            invariant
                i <= n,
                n == self.children@.len(),
                n == self.view().children.len(),
                tallest == self.view().tallest_child(i as nat),
            decreases n - i,
        {
            proof {
                self.lemma_view_children();
                lemma_tallest_monotone(self.view(), i as nat, n as nat);
            }
            let child: usize = match self.children[i].measure_height() {
                Some(h) => h,
                None => {
                    return None;
                },
            };
            if child > tallest {
                tallest = child;
            }
            i += 1;
        }
        let rows: usize = if self.lines.len() == 0 {
            1
        } else {
            self.lines.len()
        };
        let own: usize = match rows.checked_add(2) {
            Some(v) => v,
            None => {
                return None;
            },
        };
        if n == 0 {
            Some(own)
        } else {
            match own.checked_add(1) {
                Some(v) => v.checked_add(tallest),
                None => None,
            }
        }
    }

    /// Width and height of the subtree's grid, or `None` where either
    /// exceeds the machine's integers.
    pub fn measure(&self, spacing: usize) -> (r: Option<(usize, usize)>)
        ensures
            r is Some <==> self.view().fits(spacing as nat),
            r is Some ==> r.unwrap().0 == self.view().subtree_width(spacing as nat) && r.unwrap().1
                == self.view().total_height(),
    {
        match self.measure_width(spacing) {
            Some(w) => match self.measure_height() {
                Some(h) => Some((w, h)),
                None => None,
            },
            None => None,
        }
    }
}

} // verus!
