//! Heading-structured text turned into trees and drawn as character art.
//!
//! A document whose lines start with `#` markers is parsed into a forest of
//! [`tree::tree_node::TreeNode`] values. Each tree is drawn either as a box
//! diagram ([`tree::vertical::render`]) or as an indented listing
//! ([`tree::horizontal::render_lines`]).

use vstd::prelude::*;
use crate::text::views_of;
use crate::tree::horizontal::{listed, render_lines};
use crate::tree::style::{glyphs_of, BoxDrawings, Style};
use crate::tree::tree_node::{forest_view, lemma_forest_view_index, Tree};
use crate::tree::vertical::try_render;
use crate::parser::{parse, parsed};

pub mod text;
pub mod wrap;
pub mod parser;
pub mod tree;
pub mod hierarchy;

pub use crate::hierarchy::btreemap_to_node;

verus! {

/// What the tool was asked to do.
#[derive(Debug)]
pub struct Args {
    pub command: Command,
}

/// The two ways of drawing.
#[derive(Debug)]
pub enum Command {
    /// Draw each tree as a box diagram.
    Vertical(VerticalArgs),
    /// Draw the forest as an indented listing.
    Horizontal(HorizontalArgs),
}

/// Options of the indented listing.
#[derive(Debug)]
pub struct HorizontalArgs {
    /// The heading-marked text.
    pub input: String,
}

/// Options of the box diagram.
#[derive(Debug)]
pub struct VerticalArgs {
    /// The glyph theme.
    pub style: Style,
    /// The heading-marked text.
    pub input: String,
    /// The greatest width of a box's text, if labels are to be wrapped.
    pub width: Option<usize>,
    /// The blank columns between sibling subtrees.
    pub spacing: usize,
}

/// Every tree of `forest` has a grid that machine integers can index.
pub open spec fn all_fit(forest: Seq<Tree>, spacing: nat) -> bool {
    forall|i: int| 0 <= i < forest.len() ==> (#[trigger] forest[i]).fits(spacing)
}

/// The box diagram of each tree of `forest`, in order.
pub open spec fn diagrams(forest: Seq<Tree>, glyphs: BoxDrawings, spacing: nat) -> Seq<Seq<char>> {
    Seq::new(forest.len(), |i: int| forest[i].rendered(glyphs, spacing))
}

impl HorizontalArgs {
    /// The lines of the indented listing of the input, which is never
    /// wrapped.
    pub fn run(&self) -> (out: Vec<String>)
        ensures
            views_of(out@) == listed(parsed(self.input@, None)),
    {
        let roots = parse(self.input.as_str(), None);
        render_lines(&roots)
    }
}

impl VerticalArgs {
    /// The box diagram of each root of the input, in order; `None` where
    /// the grid of a root is too large for the machine's integers.
    pub fn run(self) -> (out: Option<Vec<String>>)
        ensures
            out is Some <==> all_fit(parsed(self.input@, self.width), self.spacing as nat),
            out is Some ==> views_of(out.unwrap()@) == diagrams(
                parsed(self.input@, self.width),
                glyphs_of(self.style),
                self.spacing as nat,
            ),
    {
        let roots = parse(self.input.as_str(), self.width);
        let glyphs = BoxDrawings::new(self.style);
        let ghost forest = parsed(self.input@, self.width);
        let mut out: Vec<String> = Vec::new();
        let n: usize = roots.len();
        let mut i: usize = 0;
        proof {
            lemma_forest_view_index(roots@, roots@.len());
        }
        while i < n
            invariant
                i <= n,
                n == roots@.len(),
                n == forest.len(),
                forest == forest_view(roots@),
                forest == parsed(self.input@, self.width),
                glyphs == glyphs_of(self.style),
                forall|j: int| 0 <= j < n ==> (#[trigger] forest[j]) == roots@[j].view(),
                forall|j: int| 0 <= j < i ==> (#[trigger] forest[j]).fits(self.spacing as nat),
                views_of(out@) == diagrams(forest, glyphs, self.spacing as nat).take(i as int),
            decreases n - i,
        {
            match try_render(&roots[i], &glyphs, self.spacing) {
                Some(text) => {
                    proof {
                        let all = diagrams(forest, glyphs, self.spacing as nat);
                        assert(views_of(out@.push(text)) =~= all.take(i as int).push(all[i as int]));
                        assert(all.take(i + 1) =~= all.take(i as int).push(all[i as int]));
                    }
                    out.push(text);
                },
                None => {
                    proof {
                        assert(!forest[i as int].fits(self.spacing as nat));
                    }
                    return None;
                },
            }
            i += 1;
        }
        proof {
            let all = diagrams(forest, glyphs, self.spacing as nat);
            assert(all.take(n as int) =~= all);
        }
        Some(out)
    }
}

impl Args {
    /// The texts to print, each on a line of its own: what the chosen
    /// command gives.
    pub fn run(self) -> (out: Option<Vec<String>>)
        ensures
            match self.command {
                Command::Vertical(v) => {
                    &&& out is Some <==> all_fit(parsed(v.input@, v.width), v.spacing as nat)
                    &&& out is Some ==> views_of(out.unwrap()@) == diagrams(
                        parsed(v.input@, v.width),
                        glyphs_of(v.style),
                        v.spacing as nat,
                    )
                },
                Command::Horizontal(h) => {
                    &&& out is Some
                    &&& views_of(out.unwrap()@) == listed(parsed(h.input@, None))
                },
            },
    {
        match self.command {
            Command::Vertical(vertical_args) => vertical_args.run(),
            Command::Horizontal(horizontal_args) => Some(horizontal_args.run()),
        }
    }
}

} // verus!
