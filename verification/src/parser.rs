//! From heading-marked text to a forest.
//!
//! The text is cut into lines. A line that starts with one or more `#`
//! followed by the end of the line or a separator is a heading, whose depth
//! is the number of `#`. Any other line that is not blank continues the label
//! of the heading before it. Each heading becomes a node, attached to the
//! nearest heading before it that is less deep, or a root if there is none.

use vstd::prelude::*;
use crate::text::{chars_of, seqs_of};
use crate::tree::tree_node::{
    forest_view, lemma_forest_push, lemma_trees_size_concat, trees_size, Tree, TreeNode,
};
use crate::wrap::{is_space, is_space_char, shape, shaped};

verus! {

/// A heading as it stands in the text: its depth and the lines of its label.
pub struct Heading {
    pub depth: usize,
    pub lines: Vec<Vec<char>>,
}

/// The mathematical value of a [`Heading`].
pub struct HeadingModel {
    pub depth: nat,
    pub lines: Seq<Seq<char>>,
}

impl View for Heading {
    type V = HeadingModel;

    open spec fn view(&self) -> HeadingModel {
        HeadingModel { depth: self.depth as nat, lines: seqs_of(self.lines@) }
    }
}

/// The values of a vector of headings.
pub open spec fn models_of(items: Seq<Heading>) -> Seq<HeadingModel> {
    Seq::new(items.len(), |i: int| items[i]@)
}

/// Reading `s` left to right: the lines that a line feed has ended, and the
/// line that the last character belongs to.
pub open spec fn line_scan(s: Seq<char>) -> (Seq<Seq<char>>, Seq<char>)
    decreases s.len(),
{
    if s.len() == 0 {
        (Seq::empty(), Seq::empty())
    } else {
        let (done, cur) = line_scan(s.drop_last());
        if s.last() == '\n' {
            (done.push(cur), Seq::empty())
        } else {
            (done, cur.push(s.last()))
        }
    }
}

/// The lines of `s`: the pieces between its line feeds, the one after the
/// last line feed included.
pub open spec fn lines_of(s: Seq<char>) -> Seq<Seq<char>> {
    let (done, cur) = line_scan(s);
    done.push(cur)
}

/// Number of `#` that `s` starts with.
pub open spec fn marker_count(s: Seq<char>) -> nat
    decreases s.len(),
{
    if s.len() > 0 && s[0] == '#' {
        1 + marker_count(s.drop_first())
    } else {
        0
    }
}

/// Number of separators that `s` starts with.
pub open spec fn leading_spaces(s: Seq<char>) -> nat
    decreases s.len(),
{
    if s.len() > 0 && is_space(s[0]) {
        1 + leading_spaces(s.drop_first())
    } else {
        0
    }
}

/// Number of separators that `s` ends with.
pub open spec fn trailing_spaces(s: Seq<char>) -> nat
    decreases s.len(),
{
    if s.len() > 0 && is_space(s.last()) {
        1 + trailing_spaces(s.drop_last())
    } else {
        0
    }
}

/// `s` without the separators at its two ends.
pub open spec fn trimmed(s: Seq<char>) -> Seq<char> {
    if leading_spaces(s) >= s.len() {
        Seq::empty()
    } else {
        s.subrange(leading_spaces(s) as int, s.len() - trailing_spaces(s))
    }
}

/// A heading line: one or more `#`, then the end of the line or a separator.
pub open spec fn is_heading(line: Seq<char>) -> bool {
    let k = marker_count(line);
    k >= 1 && (k >= line.len() || is_space(line[k as int]))
}

/// The label that a heading line carries.
pub open spec fn heading_label(line: Seq<char>) -> Seq<char> {
    trimmed(line.skip(marker_count(line) as int))
}

/// A line that holds separators only.
pub open spec fn is_blank(line: Seq<char>) -> bool {
    trimmed(line).len() == 0
}

/// The headings of `lines`, each with the text lines that follow it. Text
/// before the first heading belongs to no heading.
pub open spec fn headings_of(lines: Seq<Seq<char>>) -> Seq<HeadingModel>
    decreases lines.len(),
{
    if lines.len() == 0 {
        Seq::empty()
    } else {
        let prev = headings_of(lines.drop_last());
        let line = lines.last();
        if is_heading(line) {
            prev.push(HeadingModel { depth: marker_count(line), lines: seq![heading_label(line)] })
        } else if is_blank(line) || prev.len() == 0 {
            prev
        } else {
            prev.update(
                prev.len() - 1,
                HeadingModel {
                    depth: prev.last().depth,
                    lines: prev.last().lines.push(trimmed(line)),
                },
            )
        }
    }
}

/// Number of heading lines among `lines`.
pub open spec fn heading_lines(lines: Seq<Seq<char>>) -> nat
    decreases lines.len(),
{
    if lines.len() == 0 {
        0
    } else {
        heading_lines(lines.drop_last()) + if is_heading(lines.last()) {
            1nat
        } else {
            0nat
        }
    }
}

/// The lines of `lines` that are neither headings nor blank, trimmed.
pub open spec fn loose_text(lines: Seq<Seq<char>>) -> Seq<Seq<char>>
    decreases lines.len(),
{
    if lines.len() == 0 {
        Seq::empty()
    } else {
        let prev = loose_text(lines.drop_last());
        let line = lines.last();
        if is_heading(line) || is_blank(line) {
            prev
        } else {
            prev.push(trimmed(line))
        }
    }
}

/// The first index from `j` on whose heading is at most `depth` deep, or
/// the number of headings if there is none.
pub open spec fn run_end(items: Seq<HeadingModel>, depth: nat, j: nat) -> nat
    decreases items.len() - j,
{
    if j >= items.len() || items[j as int].depth <= depth {
        j
    } else {
        run_end(items, depth, j + 1)
    }
}

/// Where the descendants of heading `start` end, inside `start..end`.
pub open spec fn subtree_end(items: Seq<HeadingModel>, start: nat, end: nat) -> nat {
    let e = run_end(items, items[start as int].depth, start + 1);
    if e < end {
        e
    } else {
        end
    }
}

/// The forest of the headings `start..end`: the first heading is a root, the
/// headings after it that are deeper, up to the first that is not, form its
/// children, and the rest forms the roots after it.
pub open spec fn forest_of(
    items: Seq<HeadingModel>,
    max_width: Option<usize>,
    start: nat,
    end: nat,
) -> Seq<Tree>
    decreases end - start,
{
    if start >= end || end > items.len() {
        Seq::empty()
    } else {
        let e = subtree_end(items, start, end);
        if start < e <= end {
            seq![
                Tree {
                    lines: shaped(items[start as int].lines, max_width),
                    children: forest_of(items, max_width, start + 1, e),
                },
            ] + forest_of(items, max_width, e, end)
        } else {
            Seq::empty()
        }
    }
}

/// The forest that `text` describes: the forest of its headings; or, where
/// it has no heading, one root that holds all its text; or nothing, where it
/// has no text either.
pub open spec fn parsed(text: Seq<char>, max_width: Option<usize>) -> Seq<Tree> {
    let lines = lines_of(text);
    let items = headings_of(lines);
    if items.len() > 0 {
        forest_of(items, max_width, 0, items.len())
    } else if loose_text(lines).len() > 0 {
        seq![Tree { lines: shaped(loose_text(lines), max_width), children: Seq::empty() }]
    } else {
        Seq::empty()
    }
}

/// Number of nodes that the forest of `text` holds: one for each heading
/// line; or one, where there is text without a heading; or none.
pub open spec fn parsed_count(text: Seq<char>) -> nat {
    let lines = lines_of(text);
    if heading_lines(lines) > 0 {
        heading_lines(lines)
    } else if loose_text(lines).len() > 0 {
        1
    } else {
        0
    }
}

/// The descendants of a heading end after the heading and inside the range.
pub proof fn lemma_run_end_bounds(items: Seq<HeadingModel>, depth: nat, j: nat)
    requires
        j <= items.len(),
    ensures
        j <= run_end(items, depth, j) <= items.len(),
    decreases items.len() - j,
{
    if j < items.len() && items[j as int].depth > depth {
        lemma_run_end_bounds(items, depth, j + 1);
    }
}

/// There is one heading for each heading line.
pub proof fn lemma_headings_len(lines: Seq<Seq<char>>)
    ensures
        headings_of(lines).len() == heading_lines(lines),
    decreases lines.len(),
{
    if lines.len() > 0 {
        lemma_headings_len(lines.drop_last());
    }
}

/// The forest of a range of headings holds one node for each heading of
/// the range.
pub proof fn lemma_forest_of_size(
    items: Seq<HeadingModel>,
    max_width: Option<usize>,
    start: nat,
    end: nat,
)
    requires
        start <= end <= items.len(),
    ensures
        trees_size(
            forest_of(items, max_width, start, end),
            forest_of(items, max_width, start, end).len(),
        ) == end - start,
    decreases end - start,
{
    if start < end {
        lemma_run_end_bounds(items, items[start as int].depth, start + 1);
        let e = subtree_end(items, start, end);
        let children = forest_of(items, max_width, start + 1, e);
        let first = Tree { lines: shaped(items[start as int].lines, max_width), children };
        let rest = forest_of(items, max_width, e, end);
        lemma_forest_of_size(items, max_width, start + 1, e);
        lemma_forest_of_size(items, max_width, e, end);
        lemma_trees_size_concat(seq![first], rest, rest.len());
        assert(trees_size(seq![first], 1) == first.size()) by {
            reveal_with_fuel(trees_size, 2);
        }
    }
}

/// The forest of a text holds one node for each of its heading lines; or
/// one node, where the text has no heading line but some text; or none.
pub proof fn lemma_parsed_size(text: Seq<char>, max_width: Option<usize>)
    ensures
        trees_size(parsed(text, max_width), parsed(text, max_width).len()) == parsed_count(text),
{
    let lines = lines_of(text);
    let items = headings_of(lines);
    lemma_headings_len(lines);
    if items.len() > 0 {
        lemma_forest_of_size(items, max_width, 0, items.len());
    } else if loose_text(lines).len() > 0 {
        let only = Tree { lines: shaped(loose_text(lines), max_width), children: Seq::empty() };
        assert(parsed(text, max_width) == seq![only]);
        assert(trees_size(only.children, 0) == 0);
        assert(only.size() == 1);
        assert(trees_size(seq![only], 0) == 0);
        assert(trees_size(seq![only], 1) == trees_size(seq![only], 0) + seq![only][0].size());
    }
}

/// Cuts `s` into its lines.
pub fn split_lines(s: &Vec<char>) -> (out: Vec<Vec<char>>)
    ensures
        seqs_of(out@) == lines_of(s@),
{
    let mut done: Vec<Vec<char>> = Vec::new();
    let mut cur: Vec<char> = Vec::new();
    let n: usize = s.len();
    let mut i: usize = 0;
    while i < n
        invariant
            i <= n,
            n == s@.len(),
            (seqs_of(done@), cur@) == line_scan(s@.take(i as int)),
        decreases n - i,
    {
        proof {
            assert(s@.take(i + 1).drop_last() =~= s@.take(i as int));
        }
        let c = s[i];
        if c == '\n' {
            proof {
                assert(seqs_of(done@.push(cur)) =~= seqs_of(done@).push(cur@));
            }
            done.push(cur);
            cur = Vec::new();
        } else {
            cur.push(c);
        }
        i += 1;
    }
    proof {
        assert(s@.take(n as int) =~= s@);
        assert(seqs_of(done@.push(cur)) =~= seqs_of(done@).push(cur@));
    }
    done.push(cur);
    done
}

/// Counts the `#` that `line` starts with.
pub fn count_markers(line: &Vec<char>) -> (k: usize)
    ensures
        k == marker_count(line@),
        k <= line@.len(),
{
    let n: usize = line.len();
    let mut k: usize = 0;
    proof {
        assert(line@.skip(0) =~= line@);
    }
    while k < n && line[k] == '#'
        invariant
            k <= n,
            n == line@.len(),
            marker_count(line@) == k + marker_count(line@.skip(k as int)),
        decreases n - k,
    {
        proof {
            assert(line@.skip(k as int).drop_first() =~= line@.skip(k + 1));
        }
        k += 1;
    }
    k
}

/// Copies `line[from..]` without the separators at its two ends.
pub fn trim_from(line: &Vec<char>, from: usize) -> (out: Vec<char>)
    requires
        from <= line@.len(),
    ensures
        out@ == trimmed(line@.skip(from as int)),
{
    let n: usize = line.len();
    let ghost s = line@.skip(from as int);
    let mut a: usize = from;
    while a < n && is_space_char(line[a])
        invariant
            from <= a <= n,
            n == line@.len(),
            s == line@.skip(from as int),
            leading_spaces(s) == (a - from) + leading_spaces(line@.skip(a as int)),
        decreases n - a,
    {
        proof {
            assert(line@.skip(a as int).drop_first() =~= line@.skip(a + 1));
        }
        a += 1;
    }
    let mut out: Vec<char> = Vec::new();
    if a == n {
        return out;
    }
    let mut b: usize = n;
    while b > a + 1 && is_space_char(line[b - 1])
        invariant
            from <= a < b <= n,
            n == line@.len(),
            s == line@.skip(from as int),
            !is_space(line@[a as int]),
            trailing_spaces(s) == (n - b) + trailing_spaces(line@.subrange(from as int, b as int)),
        decreases b,
    {
        proof {
            assert(line@.subrange(from as int, b as int).drop_last() =~= line@.subrange(
                from as int,
                b - 1,
            ));
        }
        b -= 1;
    }
    proof {
        assert(line@.subrange(from as int, n as int) =~= s);
        assert(line@.subrange(from as int, b as int).last() == line@[b - 1]);
    }
    let mut i: usize = a;
    while i < b
        invariant
            a <= i <= b <= n,
            n == line@.len(),
            out@ == line@.subrange(a as int, i as int),
        decreases b - i,
    {
        out.push(line[i]);
        proof {
            assert(line@.subrange(a as int, i + 1) =~= line@.subrange(a as int, i as int).push(
                line@[i as int],
            ));
        }
        i += 1;
    }
    proof {
        assert(s.subrange(a - from, s.len() - (n - b)) =~= line@.subrange(a as int, b as int));
    }
    out
}

/// The headings of `lines`, and the loose text where there is no heading.
#[verifier::spinoff_prover]
#[verifier::rlimit(60)]
pub fn scan_headings(lines: &Vec<Vec<char>>) -> (out: (Vec<Heading>, Vec<Vec<char>>))
    ensures
        models_of(out.0@) == headings_of(seqs_of(lines@)),
        out.0@.len() == 0 ==> seqs_of(out.1@) == loose_text(seqs_of(lines@)),
{
    let mut items: Vec<Heading> = Vec::new();
    let mut loose: Vec<Vec<char>> = Vec::new();
    let n: usize = lines.len();
    let mut i: usize = 0;
    while i < n
        invariant
            i <= n,
            n == lines@.len(),
            models_of(items@) == headings_of(seqs_of(lines@).take(i as int)),
            items@.len() == 0 ==> seqs_of(loose@) == loose_text(seqs_of(lines@).take(i as int)),
        decreases n - i,
    {
        proof {
            assert(seqs_of(lines@).take(i + 1).drop_last() =~= seqs_of(lines@).take(i as int));
        }
        let line = &lines[i];
        let ghost before = models_of(items@);
        let k: usize = count_markers(line);
        if k >= 1 && (k >= line.len() || is_space_char(line[k])) {
            let label = trim_from(line, k);
            let mut label_lines: Vec<Vec<char>> = Vec::new();
            label_lines.push(label);
            let item = Heading { depth: k, lines: label_lines };
            proof {
                assert(item.lines@ =~= seq![label]);
                assert(seqs_of(item.lines@) =~= seq![heading_label(line@)]);
                assert(models_of(items@.push(item)) =~= before.push(item@));
            }
            items.push(item);
        } else {
            let t = trim_from(line, 0);
            proof {
                assert(line@.skip(0) =~= line@);
            }
            if t.len() > 0 {
                match items.pop() {
                    Some(last) => {
                        let ghost rest = models_of(items@);
                        let mut last = last;
                        proof {
                            assert(seqs_of(last.lines@.push(t)) =~= seqs_of(last.lines@).push(t@));
                            assert(rest =~= before.drop_last());
                        }
                        last.lines.push(t);
                        proof {
                            assert(models_of(items@.push(last)) =~= before.update(
                                before.len() - 1,
                                last@,
                            ));
                        }
                        items.push(last);
                    },
                    None => {
                        proof {
                            assert(seqs_of(loose@.push(t)) =~= seqs_of(loose@).push(t@));
                        }
                        loose.push(t);
                    },
                }
            }
        }
        i += 1;
    }
    proof {
        assert(seqs_of(lines@).take(n as int) =~= seqs_of(lines@));
    }
    (items, loose)
}

/// Where the descendants of heading `start` end, inside `start..end`.
pub fn find_subtree_end(items: &Vec<Heading>, start: usize, end: usize) -> (e: usize)
    requires
        start < end <= items@.len(),
    ensures
        e == subtree_end(models_of(items@), start as nat, end as nat),
        start < e <= end,
{
    let depth: usize = items[start].depth;
    let mut j: usize = start + 1;
    while j < end && items[j].depth > depth
        invariant
            start < j <= end <= items@.len(),
            depth == models_of(items@)[start as int].depth,
            run_end(models_of(items@), depth as nat, (start + 1) as nat) == run_end(
                models_of(items@),
                depth as nat,
                j as nat,
            ),
        decreases end - j,
    {
        j += 1;
    }
    proof {
        lemma_run_end_bounds(models_of(items@), depth as nat, j as nat);
    }
    j
}

/// Builds the forest of the headings `start..end`.
pub fn build_forest(items: &Vec<Heading>, max_width: Option<usize>, start: usize, end: usize) -> (out:
    Vec<TreeNode>)
    requires
        start <= end <= items@.len(),
    ensures
        forest_view(out@) == forest_of(models_of(items@), max_width, start as nat, end as nat),
        forall|i: int| 0 <= i < out@.len() ==> (#[trigger] out@[i]).wf(),
    decreases end - start,
{
    let mut out: Vec<TreeNode> = Vec::new();
    let mut cur: usize = start;
    while cur < end
        invariant
            start <= cur <= end <= items@.len(),
            forest_of(models_of(items@), max_width, start as nat, end as nat) == forest_view(out@)
                + forest_of(models_of(items@), max_width, cur as nat, end as nat),
            forall|i: int| 0 <= i < out@.len() ==> (#[trigger] out@[i]).wf(),
        decreases end - cur,
    {
        let e: usize = find_subtree_end(items, cur, end);
        let children = build_forest(items, max_width, cur + 1, e);
        let lines = shape(&items[cur].lines, max_width);
        let node = TreeNode { lines, children };
        proof {
            lemma_forest_push(out@, node);
            let rest = forest_of(models_of(items@), max_width, e as nat, end as nat);
            assert(forest_view(out@) + (seq![node.view()] + rest) =~= forest_view(out@).push(
                node.view(),
            ) + rest);
            assert(node.wf());
        }
        out.push(node);
        cur = e;
    }
    proof {
        assert(forest_view(out@) + Seq::<Tree>::empty() =~= forest_view(out@));
    }
    out
}

/// Parses heading-marked text into a forest. With a `max_width`, the label
/// of every node is wrapped to that width.
pub fn parse(text: &str, max_width: Option<usize>) -> (forest: Vec<TreeNode>)
    ensures
        forest_view(forest@) == parsed(text@, max_width),
        trees_size(forest_view(forest@), forest_view(forest@).len()) == parsed_count(text@),
        forall|i: int| 0 <= i < forest@.len() ==> (#[trigger] forest@[i]).wf(),
{
    let chars = chars_of(text);
    let lines = split_lines(&chars);
    let (items, loose) = scan_headings(&lines);
    proof {
        lemma_parsed_size(text@, max_width);
    }
    if items.len() > 0 {
        build_forest(&items, max_width, 0, items.len())
    } else if loose.len() > 0 {
        let node = TreeNode::leaf(shape(&loose, max_width));
        let mut forest: Vec<TreeNode> = Vec::new();
        proof {
            lemma_forest_push(forest@, node);
        }
        forest.push(node);
        proof {
            assert(forest_view(forest@) =~= seq![node.view()]);
        }
        forest
    } else {
        let forest: Vec<TreeNode> = Vec::new();
        proof {
            assert(forest_view(forest@) =~= Seq::<Tree>::empty());
        }
        forest
    }
}

} // verus!
