//! The indented listing: one text line per label line, children two
//! columns further in than their parent.

use vstd::prelude::*;
use crate::text::{append_chars, chars_of, string_of, views_of};
use crate::tree::tree_node::{forest_view, lemma_forest_view_index, Tree, TreeNode};

verus! {

/// What stands before a label line: a bullet before the first line of a
/// node, two blanks before its other lines.
pub open spec fn bullet(first: bool) -> Seq<char> {
    if first {
        seq!['-', ' ']
    } else {
        seq![' ', ' ']
    }
}

impl Tree {
    /// The first `n` label lines of the node, each behind `indent` and its
    /// bullet.
    pub open spec fn label_listing(&self, indent: Seq<char>, n: nat) -> Seq<Seq<char>>
        decreases n,
    {
        if n == 0 || n > self.lines.len() {
            Seq::empty()
        } else {
            self.label_listing(indent, (n - 1) as nat).push(
                indent + bullet(n == 1) + self.lines[n - 1],
            )
        }
    }

    /// The listings of the first `n` children, one after the other.
    pub open spec fn children_listing(&self, indent: Seq<char>, n: nat) -> Seq<Seq<char>>
        decreases self, n,
    {
        if n == 0 || n > self.children.len() {
            Seq::empty()
        } else {
            self.children_listing(indent, (n - 1) as nat) + self.children[n - 1].listing(indent)
        }
    }

    /// The listing of the subtree: the node's label lines behind `indent`,
    /// then its children behind two more blanks.
    pub open spec fn listing(&self, indent: Seq<char>) -> Seq<Seq<char>>
        decreases self, self.children.len() + 1,
    {
        self.label_listing(indent, self.lines.len()) + self.children_listing(
            indent + seq![' ', ' '],
            self.children.len(),
        )
    }
}

/// The listings of the first `n` trees of `forest`, without indentation.
pub open spec fn forest_listing(forest: Seq<Tree>, n: nat) -> Seq<Seq<char>>
    decreases n,
{
    if n == 0 || n > forest.len() {
        Seq::empty()
    } else {
        forest_listing(forest, (n - 1) as nat) + forest[n - 1].listing(Seq::empty())
    }
}

/// The listing of the whole forest.
pub open spec fn listed(forest: Seq<Tree>) -> Seq<Seq<char>> {
    forest_listing(forest, forest.len())
}

impl TreeNode {
    /// Appends the listing of the subtree to `out`.
    pub fn list_into(&self, indent: &Vec<char>, out: &mut Vec<String>)
        ensures
            views_of(final(out)@) == views_of(old(out)@) + self.view().listing(indent@),
        decreases self,
    {
        proof {
            self.lemma_view_children();
        }
        let ghost before = views_of(out@);
        let m: usize = self.lines.len();
        let mut k: usize = 0;
        while k < m
            invariant
                k <= m,
                m == self.lines@.len(),
                m == self.view().lines.len(),
                views_of(out@) == before + self.view().label_listing(indent@, k as nat),
            decreases m - k,
        {
            let mut line: Vec<char> = Vec::new();
            append_chars(&mut line, indent);
            if k == 0 {
                line.push('-');
            } else {
                line.push(' ');
            }
            line.push(' ');
            let label = chars_of(self.lines[k].as_str());
            append_chars(&mut line, &label);
            let text = string_of(&line);
            proof {
                assert(line@ =~= indent@ + bullet(k == 0) + self.view().lines[k as int]);
                assert(views_of(out@.push(text)) =~= views_of(out@).push(text@));
                assert(before + self.view().label_listing(indent@, (k + 1) as nat) =~= (before
                    + self.view().label_listing(indent@, k as nat)).push(text@));
            }
            out.push(text);
            k += 1;
        }
        let mut deeper: Vec<char> = Vec::new();
        append_chars(&mut deeper, indent);
        deeper.push(' ');
        deeper.push(' ');
        proof {
            assert(deeper@ =~= indent@ + seq![' ', ' ']);
        }
        let ghost labels = views_of(out@);
        let n: usize = self.children.len();
        let mut i: usize = 0;
        while i < n
            invariant
                i <= n,
                n == self.children@.len(),
                n == self.view().children.len(),
                deeper@ == indent@ + seq![' ', ' '],
                forall|j: int|
                    0 <= j < n ==> (#[trigger] self.view().children[j]) == self.children@[j].view(),
                views_of(out@) == labels + self.view().children_listing(deeper@, i as nat),
            decreases n - i,
        {
            let ghost sofar = views_of(out@);
            self.children[i].list_into(&deeper, out);
            proof {
                assert(labels + self.view().children_listing(deeper@, (i + 1) as nat) =~= sofar
                    + self.children@[i as int].view().listing(deeper@));
            }
            i += 1;
        }
        proof {
            assert(views_of(out@) =~= before + self.view().listing(indent@));
        }
    }
}

/// The lines of the indented listing of `forest`, top to bottom.
pub fn render_lines(forest: &Vec<TreeNode>) -> (out: Vec<String>)
    ensures
        views_of(out@) == listed(forest_view(forest@)),
{
    let mut out: Vec<String> = Vec::new();
    let indent: Vec<char> = Vec::new();
    let n: usize = forest.len();
    let mut i: usize = 0;
    proof {
        lemma_forest_view_index(forest@, forest@.len());
        assert(views_of(out@) =~= Seq::<Seq<char>>::empty());
    }
    while i < n
        invariant
            i <= n,
            n == forest@.len(),
            n == forest_view(forest@).len(),
            indent@ == Seq::<char>::empty(),
            forall|j: int| 0 <= j < n ==> (#[trigger] forest_view(forest@)[j]) == forest@[j].view(),
            views_of(out@) == forest_listing(forest_view(forest@), i as nat),
        decreases n - i,
    {
        forest[i].list_into(&indent, &mut out);
        i += 1;
    }
    out
}

} // verus!
