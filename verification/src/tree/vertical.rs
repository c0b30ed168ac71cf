//! The box diagram: every cell of the grid of a tree, and the grid as text.
//!
//! The grid of a node is as wide as its subtree and as tall as its deepest
//! path. Its first rows hold the node's box, centred in the span. Below the
//! box of a node with children comes one connector row, and below that the
//! grids of the children, side by side, centred as a block.

use vstd::prelude::*;
use vstd::string::StrSliceExecFns;
use crate::tree::tree_node::{Tree, TreeNode};
use crate::tree::style::BoxDrawings;
use crate::tree::layout::{content_width, lemma_child_fits, lemma_child_inside, lemma_span_step, lemma_subtree_width_bounds};
use crate::text::{join_with, joined, string_of, views_of};

verus! {

impl Tree {
    /// Character `k` of label line `line`, blank outside the text.
    pub open spec fn text_char(&self, line: int, k: int) -> char {
        if 0 <= line < self.lines.len() && 0 <= k < self.lines[line].len() {
            self.lines[line][k]
        } else {
            ' '
        }
    }

    /// The cell of the node's box at `row`, `k` columns right of the box's
    /// left edge: borders around the text, which is left-aligned behind one
    /// column of padding.
    pub open spec fn box_cell(&self, g: BoxDrawings, row: int, k: int) -> char {
        let w = self.box_width() as int;
        let h = self.box_height() as int;
        if k < 0 || k >= w || row < 0 || row >= h {
            ' '
        } else if row == 0 {
            if k == 0 {
                g.top_left
            } else if k == w - 1 {
                g.top_right
            } else {
                g.horizontal
            }
        } else if row == h - 1 {
            if k == 0 {
                g.bottom_left
            } else if k == w - 1 {
                g.bottom_right
            } else {
                g.horizontal
            }
        } else if k == 0 || k == w - 1 {
            g.vertical
        } else {
            self.text_char(row - 1, k - 2)
        }
    }

    /// Whether `col` is the centre column of child `i` or of a later child.
    pub open spec fn is_child_center_from(&self, spacing: nat, col: int, i: nat) -> bool
        decreases self.children.len() - i,
    {
        if i >= self.children.len() {
            false
        } else {
            self.child_center(spacing, i) == col || self.is_child_center_from(spacing, col, i + 1)
        }
    }

    /// The cell at `col` of the connector row of a node with children.
    ///
    /// Under a single child stands one vertical glyph, at the centre of the
    /// parent. With more children a horizontal bar runs from the centre of
    /// the first child to the centre of the last, stretched to reach the
    /// centre of the parent; a down-branch glyph stands above each child's
    /// centre and a tee below the parent's, unless a child's centre is there.
    pub open spec fn connector_cell(&self, g: BoxDrawings, spacing: nat, col: int) -> char {
        let n = self.children.len();
        let pc = self.center(spacing) as int;
        if n == 0 {
            ' '
        } else if n == 1 {
            if col == pc {
                g.vertical
            } else {
                ' '
            }
        } else {
            let first = self.child_center(spacing, 0) as int;
            let last = self.child_center(spacing, (n - 1) as nat) as int;
            let lo = if pc < first {
                pc
            } else {
                first
            };
            let hi = if pc > last {
                pc
            } else {
                last
            };
            if self.is_child_center_from(spacing, col, 0) {
                g.down
            } else if col == pc {
                g.tee
            } else if lo < col < hi {
                g.horizontal
            } else {
                ' '
            }
        }
    }

    /// The cell at (`row`, `col`) of the band below the connector row, as
    /// drawn by child `i` or a later child: the cell of the grid of the
    /// child whose span holds `col`, blank where no child reaches.
    pub open spec fn child_cell(&self, g: BoxDrawings, spacing: nat, row: int, col: int, i: nat) -> char
        decreases self, self.children.len() - i,
    {
        if i >= self.children.len() {
            ' '
        } else {
            let child = self.children[i as int];
            let x = self.child_pos(spacing, i) as int;
            if x <= col < x + child.subtree_width(spacing) {
                if 0 <= row < child.total_height() {
                    child.cell_at(g, spacing, row, col - x)
                } else {
                    ' '
                }
            } else {
                self.child_cell(g, spacing, row, col, i + 1)
            }
        }
    }

    /// The cell at (`row`, `col`) of the grid of the subtree.
    pub open spec fn cell_at(&self, g: BoxDrawings, spacing: nat, row: int, col: int) -> char
        decreases self, self.children.len() + 1,
    {
        let bh = self.box_height() as int;
        if row < bh {
            self.box_cell(g, row, col - self.box_left(spacing))
        } else if self.children.len() == 0 {
            ' '
        } else if row == bh {
            self.connector_cell(g, spacing, col)
        } else {
            self.child_cell(g, spacing, row - bh - 1, col, 0)
        }
    }

    /// Row `row` of the grid, over the full width of the subtree.
    pub open spec fn row_text(&self, g: BoxDrawings, spacing: nat, row: int) -> Seq<char> {
        Seq::new(self.subtree_width(spacing), |col: int| self.cell_at(g, spacing, row, col))
    }

    /// The rows of the grid, top to bottom.
    pub open spec fn grid_rows(&self, g: BoxDrawings, spacing: nat) -> Seq<Seq<char>> {
        Seq::new(self.total_height(), |row: int| self.row_text(g, spacing, row))
    }

    /// The diagram as text: the rows of the grid with a line break between
    /// each two.
    pub open spec fn rendered(&self, g: BoxDrawings, spacing: nat) -> Seq<char> {
        joined(self.grid_rows(g, spacing), seq!['\n'])
    }
}

impl TreeNode {
    fn box_cell_at(&self, g: &BoxDrawings, row: usize, k: usize, bw: usize) -> (c: char)
        requires
            bw == self.view().box_width(),
            k < bw,
            row < self.view().box_height(),
        ensures
            c == self.view().box_cell(*g, row as int, k as int),
    {
        let rows: usize = if self.lines.len() == 0 {
            1
        } else {
            self.lines.len()
        };
        if row == 0 {
            if k == 0 {
                g.top_left
            } else if k == bw - 1 {
                g.top_right
            } else {
                g.horizontal
            }
        } else if row - 1 >= rows {
            if k == 0 {
                g.bottom_left
            } else if k == bw - 1 {
                g.bottom_right
            } else {
                g.horizontal
            }
        } else if k == 0 || k == bw - 1 {
            g.vertical
        } else if k >= 2 && row - 1 < self.lines.len() {
            let line = self.lines[row - 1].as_str();
            if k - 2 < line.unicode_len() {
                line.get_char(k - 2)
            } else {
                ' '
            }
        } else {
            ' '
        }
    }

    fn first_child_left(&self, spacing: usize) -> (x: usize)
        requires
            self.view().fits(spacing as nat),
        ensures
            x == self.view().children_left(spacing as nat),
    {
        proof {
            lemma_subtree_width_bounds(self.view(), spacing as nat);
        }
        let w: usize = match self.measure_width(spacing) {
            Some(w) => w,
            None => 0,
        };
        let span: usize = match self.measure_children(spacing) {
            Some(v) => v,
            None => 0,
        };
        (w - span) / 2
    }

    fn connector_at(&self, g: &BoxDrawings, spacing: usize, col: usize, pc: usize) -> (c: char)
        requires
            self.view().fits(spacing as nat),
            self.view().children.len() > 0,
            pc == self.view().center(spacing as nat),
        ensures
            c == self.view().connector_cell(*g, spacing as nat, col as int),
    {
        let n: usize = self.children.len();
        proof {
            self.lemma_view_children();
        }
        if n == 1 {
            return if col == pc {
                g.vertical
            } else {
                ' '
            };
        }
        let mut x: usize = self.first_child_left(spacing);
        let mut hit = false;
        let mut first: usize = 0;
        let mut last: usize = 0;
        let mut i: usize = 0;
        while i < n
            invariant
                i <= n,
                n == self.children@.len(),
                n == self.view().children.len(),
                self.view().fits(spacing as nat),
                i < n ==> x == self.view().child_pos(spacing as nat, i as nat),
                i > 0 ==> first == self.view().child_center(spacing as nat, 0),
                i > 0 ==> last == self.view().child_center(spacing as nat, (i - 1) as nat),
                self.view().is_child_center_from(spacing as nat, col as int, 0) == (hit
                    || self.view().is_child_center_from(spacing as nat, col as int, i as nat)),
            decreases n - i,
        {
            let child = &self.children[i];
            proof {
                self.lemma_view_children();
                lemma_child_inside(self.view(), spacing as nat, i as nat);
                lemma_child_fits(self.view(), spacing as nat, i as nat);
                lemma_subtree_width_bounds(child.view(), spacing as nat);
                lemma_span_step(self.view(), spacing as nat, i as nat);
            }
            let cw: usize = match child.measure_width(spacing) {
                Some(w) => w,
                None => 0,
            };
            let cbw: usize = child.longest_line() + 4;
            let cc: usize = x + (cw - cbw) / 2 + cbw / 2;
            if i == 0 {
                first = cc;
            }
            last = cc;
            if cc == col {
                hit = true;
            }
            if i + 1 < n {
                proof {
                    lemma_span_step(self.view(), spacing as nat, (i + 1) as nat);
                    lemma_child_inside(self.view(), spacing as nat, (i + 1) as nat);
                }
                x = x + cw + spacing;
            }
            i += 1;
        }
        let lo: usize = if pc < first {
            pc
        } else {
            first
        };
        let hi: usize = if pc > last {
            pc
        } else {
            last
        };
        if hit {
            g.down
        } else if col == pc {
            g.tee
        } else if lo < col && col < hi {
            g.horizontal
        } else {
            ' '
        }
    }

    /// The character at (`row`, `col`) of the grid of the subtree.
    pub fn cell(&self, g: &BoxDrawings, spacing: usize, row: usize, col: usize) -> (c: char)
        requires
            self.view().fits(spacing as nat),
            row < self.view().total_height(),
            col < self.view().subtree_width(spacing as nat),
        ensures
            c == self.view().cell_at(*g, spacing as nat, row as int, col as int),
        decreases self,
    {
        proof {
            self.lemma_view_children();
            lemma_subtree_width_bounds(self.view(), spacing as nat);
        }
        let n: usize = self.children.len();
        proof {
            self.lemma_view_children();
        }
        let w: usize = match self.measure_width(spacing) {
            Some(w) => w,
            None => 0,
        };
        let bw: usize = self.longest_line() + 4;
        let left: usize = (w - bw) / 2;
        let rows: usize = if self.lines.len() == 0 {
            1
        } else {
            self.lines.len()
        };
        let bh: usize = rows + 2;
        if row < bh {
            if col < left || col - left >= bw {
                ' '
            } else {
                self.box_cell_at(g, row, col - left, bw)
            }
        } else if n == 0 {
            ' '
        } else if row == bh {
            self.connector_at(g, spacing, col, left + bw / 2)
        } else {
            let r: usize = row - bh - 1;
            let mut x: usize = self.first_child_left(spacing);
            let mut i: usize = 0;
            while i < n
                invariant
                    i <= n,
                    n == self.children@.len(),
                    n == self.view().children.len(),
                n == self.view().children.len(),
                    self.view().fits(spacing as nat),
                    r + bh + 1 == row,
                    bh == self.view().box_height(),
                    i < n ==> x == self.view().child_pos(spacing as nat, i as nat),
                    self.view().cell_at(*g, spacing as nat, row as int, col as int) == self.view().child_cell(
                        *g,
                        spacing as nat,
                        r as int,
                        col as int,
                        i as nat,
                    ),
                decreases n - i,
            {
                let child = &self.children[i];
                proof {
                    self.lemma_view_children();
                    lemma_child_inside(self.view(), spacing as nat, i as nat);
                    lemma_child_fits(self.view(), spacing as nat, i as nat);
                    lemma_span_step(self.view(), spacing as nat, i as nat);
                }
                let cw: usize = match child.measure_width(spacing) {
                    Some(w) => w,
                    None => 0,
                };
                if x <= col && col - x < cw {
                    let ch: usize = match child.measure_height() {
                        Some(h) => h,
                        None => 0,
                    };
                    return if r < ch {
                        child.cell(g, spacing, r, col - x)
                    } else {
                        ' '
                    };
                }
                if i + 1 < n {
                    proof {
                        lemma_span_step(self.view(), spacing as nat, (i + 1) as nat);
                        lemma_child_inside(self.view(), spacing as nat, (i + 1) as nat);
                    }
                    x = x + cw + spacing;
                }
                i += 1;
            }
            ' '
        }
    }
}

/// The grid is as tall as the subtree and every row as wide: for a node
/// without children, the longest line and four columns.
pub proof fn lemma_grid_shape(node: Tree, g: BoxDrawings, spacing: nat)
    ensures
        node.grid_rows(g, spacing).len() == node.total_height(),
        forall|row: int|
            0 <= row < node.total_height() ==> (#[trigger] node.grid_rows(g, spacing)[row]).len()
                == node.subtree_width(spacing),
        node.children.len() == 0 ==> node.total_height() == node.text_rows() + 2
            && node.subtree_width(spacing) == content_width(node.lines, node.lines.len()) + 4,
{
}

/// Draws the tree rooted at `root` as a box diagram.
pub fn render(root: &TreeNode, glyphs: &BoxDrawings, spacing: usize) -> (out: String)
    requires
        root.view().fits(spacing as nat),
    ensures
        out@ == root.view().rendered(*glyphs, spacing as nat),
{
    let width: usize = match root.measure_width(spacing) {
        Some(w) => w,
        None => 0,
    };
    let height: usize = match root.measure_height() {
        Some(h) => h,
        None => 0,
    };
    let mut rows: Vec<String> = Vec::new();
    let mut row: usize = 0;
    while row < height
        invariant
            row <= height,
            height == root.view().total_height(),
            width == root.view().subtree_width(spacing as nat),
            root.view().fits(spacing as nat),
            views_of(rows@) == root.view().grid_rows(*glyphs, spacing as nat).take(row as int),
        decreases height - row,
    {
        let mut cells: Vec<char> = Vec::new();
        let mut col: usize = 0;
        while col < width
            invariant
                col <= width,
                row < height,
                height == root.view().total_height(),
                width == root.view().subtree_width(spacing as nat),
                root.view().fits(spacing as nat),
                cells@ == root.view().row_text(*glyphs, spacing as nat, row as int).take(col as int),
            decreases width - col,
        {
            let c = root.cell(glyphs, spacing, row, col);
            cells.push(c);
            proof {
                let full = root.view().row_text(*glyphs, spacing as nat, row as int);
                assert(full.take(col + 1) =~= full.take(col as int).push(full[col as int]));
            }
            col += 1;
        }
        let line = string_of(&cells);
        rows.push(line);
        proof {
            let full = root.view().row_text(*glyphs, spacing as nat, row as int);
            assert(full.take(width as int) =~= full);
            let grid = root.view().grid_rows(*glyphs, spacing as nat);
            assert(views_of(rows@) =~= grid.take(row as int).push(grid[row as int]));
            assert(grid.take(row + 1) =~= grid.take(row as int).push(grid[row as int]));
        }
        row += 1;
    }
    proof {
        reveal_strlit("\n");
        let grid = root.view().grid_rows(*glyphs, spacing as nat);
        assert(grid.take(height as int) =~= grid);
        assert("\n"@ =~= seq!['\n']);
    }
    join_with(&rows, "\n")
}

/// Draws the tree as [`render`] does, or returns `None` where its grid is
/// too large for the machine's integers.
pub fn try_render(root: &TreeNode, glyphs: &BoxDrawings, spacing: usize) -> (out: Option<String>)
    ensures
        out is Some <==> root.view().fits(spacing as nat),
        out is Some ==> out.unwrap()@ == root.view().rendered(*glyphs, spacing as nat),
{
    match root.measure(spacing) {
        Some(_) => Some(render(root, glyphs, spacing)),
        None => None,
    }
}

} // verus!
