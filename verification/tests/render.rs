use astree::parser::parse;
use astree::tree::horizontal::render_lines;
use astree::tree::style::{BoxDrawings, Style};
use astree::tree::tree_node::TreeNode;
use astree::tree::vertical::{render, try_render};
use astree::{Args, Command, HorizontalArgs, VerticalArgs};

fn draw(text: &str, width: Option<usize>, style: Style, spacing: usize) -> Vec<String> {
    let forest = parse(text, width);
    let glyphs = BoxDrawings::new(style);
    forest
        .iter()
        .map(|root| {
            assert!(root.measure(spacing).is_some());
            render(root, &glyphs, spacing)
        })
        .collect()
}

#[test]
fn single_box_has_three_rows() {
    let out = draw("# Only", None, Style::Thin, 2);
    assert_eq!(out, vec!["┌──────┐\n│ Only │\n└──────┘".to_string()]);
    assert_eq!(out[0].lines().count(), 3);
}

#[test]
fn root_is_centred_over_two_children() {
    let out = draw("# Root\n## Child 1\n## Child 2", None, Style::Thin, 2);
    let expected = [
        "        ┌──────┐        ",
        "        │ Root │        ",
        "        └──────┘        ",
        "     ┬──────┴─────┬     ",
        "┌─────────┐  ┌─────────┐",
        "│ Child 1 │  │ Child 2 │",
        "└─────────┘  └─────────┘",
    ]
    .join("\n");
    assert_eq!(out, vec![expected]);
}

#[test]
fn empty_input_draws_nothing() {
    assert!(draw("", None, Style::Thin, 2).is_empty());
    let args = VerticalArgs { style: Style::Thin, input: String::new(), width: None, spacing: 2 };
    assert_eq!(args.run(), Some(Vec::new()));
    let args = HorizontalArgs { input: String::new() };
    assert!(args.run().is_empty());
}

#[test]
fn leaf_box_is_four_wider_than_its_longest_line() {
    for text in ["# a", "# hello world", "# x\nlonger line\nmid", "# ö┌"] {
        let forest = parse(text, None);
        let longest = forest[0].lines.iter().map(|l| l.chars().count()).max().unwrap();
        assert_eq!(forest[0].longest_line(), longest);
        assert_eq!(forest[0].measure_width(2), Some(longest + 4));
        let text = render(&forest[0], &BoxDrawings::new(Style::Ascii), 2);
        for row in text.lines() {
            assert_eq!(row.chars().count(), longest + 4);
        }
    }
}

#[test]
fn multi_line_label_is_left_aligned() {
    let out = draw("# ab\nlonger\nc", None, Style::Ascii, 2);
    let expected = ["+--------+", "| ab     |", "| longer |", "| c      |", "+--------+"].join("\n");
    assert_eq!(out, vec![expected]);
}

#[test]
fn single_child_hangs_on_a_vertical_glyph() {
    let out = draw("# Parent\n## Kid", None, Style::Ascii, 2);
    let expected = [
        "+--------+",
        "| Parent |",
        "+--------+",
        "     |    ",
        " +-----+  ",
        " | Kid |  ",
        " +-----+  ",
    ]
    .join("\n");
    assert_eq!(out, vec![expected]);
}

#[test]
fn subtree_is_at_least_as_wide_as_its_box() {
    let forest = parse("# A very wide parent label\n## a\n## b", None);
    let root = &forest[0];
    assert_eq!(root.measure_width(1), Some(28));
    assert_eq!(root.measure_children(1), Some(11));
    assert_eq!(root.longest_line(), 24);
    assert_eq!(root.children[0].measure_width(1), Some(5));
    let narrow = parse("# p\n## a wide child\n## another wide child", None);
    assert_eq!(narrow[0].measure_width(3), Some(16 + 3 + 22));
    assert_eq!(narrow[0].measure_height(), Some(7));
    assert_eq!(narrow[0].measure(3), Some((41, 7)));
}

#[test]
fn siblings_never_share_a_column() {
    for spacing in [0usize, 1, 5] {
        for width in [None, Some(4), Some(12)] {
            let forest = parse("# Top\n## first child here\n### g1\n### g2\n## second\n## third one", width);
            let root = &forest[0];
            let text = render(root, &BoxDrawings::new(Style::Thin), spacing);
            let rows: Vec<Vec<char>> = text.lines().map(|r| r.chars().collect()).collect();
            let total = root.measure_width(spacing).unwrap();
            let mut x = (total - root.measure_children(spacing).unwrap()) / 2;
            let top = root.lines.len() + 3;
            for (i, child) in root.children.iter().enumerate() {
                let w = child.measure_width(spacing).unwrap();
                let bw = child.longest_line() + 4;
                let left = x + (w - bw) / 2;
                assert_eq!(rows[top][left], '┌');
                assert_eq!(rows[top][left + bw - 1], '┐');
                for c in left + 1..left + bw - 1 {
                    assert_eq!(rows[top][c], '─');
                }
                x += w;
                if i + 1 < root.children.len() {
                    for c in x..x + spacing {
                        assert_eq!(rows[top][c], ' ');
                    }
                    x += spacing;
                }
            }
            assert!(x <= total);
            for row in &rows {
                assert_eq!(row.len(), total);
            }
        }
    }
}

#[test]
fn zero_spacing_puts_boxes_side_by_side() {
    let out = draw("# R\n## a\n## b", None, Style::Ascii, 0);
    let expected = [
        "  +---+   ",
        "  | R |   ",
        "  +---+   ",
        "  +-+--+  ",
        "+---++---+",
        "| a || b |",
        "+---++---+",
    ]
    .join("\n");
    assert_eq!(out, vec![expected]);
}

#[test]
fn wrapped_label_makes_a_taller_box() {
    let text = "# Root\n## A rather long label here\n### Leaf";
    let plain = parse(text, None);
    let wrapped = parse(text, Some(8));
    let before = &plain[0].children[0];
    let after = &wrapped[0].children[0];
    assert_eq!(before.lines.len(), 1);
    assert_eq!(after.lines.len(), 4);
    assert_eq!(after.longest_line() + 4, 12);
    assert_eq!(plain[0].measure_height(), Some(3 + 1 + 3 + 1 + 3));
    assert_eq!(wrapped[0].measure_height(), Some(3 + 1 + 6 + 1 + 3));
    let out = render(&wrapped[0], &BoxDrawings::new(Style::Thin), 2);
    let expected = [
        "  ┌──────┐  ",
        "  │ Root │  ",
        "  └──────┘  ",
        "      │     ",
        "┌──────────┐",
        "│ A rather │",
        "│ long     │",
        "│ label    │",
        "│ here     │",
        "└──────────┘",
        "      │     ",
        "  ┌──────┐  ",
        "  │ Leaf │  ",
        "  └──────┘  ",
    ]
    .join("\n");
    assert_eq!(out, expected);
}

#[test]
fn wide_parent_reaches_its_children_with_a_bar() {
    let out = draw("# A wide parent\n## a\n## b", None, Style::Ascii, 1);
    let expected = [
        "+---------------+",
        "| A wide parent |",
        "+---------------+",
        "     +--+--+     ",
        "   +---+ +---+   ",
        "   | a | | b |   ",
        "   +---+ +---+   ",
    ]
    .join("\n");
    assert_eq!(out, vec![expected]);
}

#[test]
fn every_theme_has_its_glyphs() {
    let thin = BoxDrawings::new(Style::Thin);
    assert_eq!((thin.top_left, thin.top_right, thin.bottom_left, thin.bottom_right), ('┌', '┐', '└', '┘'));
    assert_eq!((thin.horizontal, thin.vertical, thin.down, thin.tee), ('─', '│', '┬', '┴'));
    let thick = BoxDrawings::new(Style::Thick);
    assert_eq!((thick.top_left, thick.horizontal, thick.vertical, thick.tee), ('┏', '━', '┃', '┻'));
    let double = BoxDrawings::new(Style::Double);
    assert_eq!((double.top_left, double.bottom_right, double.down), ('╔', '╝', '╦'));
    let rounded = BoxDrawings::new(Style::Rounded);
    assert_eq!((rounded.top_left, rounded.top_right, rounded.bottom_left, rounded.bottom_right), ('╭', '╮', '╰', '╯'));
    let ascii = BoxDrawings::new(Style::Ascii);
    assert_eq!((ascii.top_left, ascii.horizontal, ascii.vertical, ascii.down, ascii.tee), ('+', '-', '|', '+', '+'));
    let out = draw("# x", None, Style::Double, 2);
    assert_eq!(out, vec!["╔═══╗\n║ x ║\n╚═══╝".to_string()]);
}

#[test]
fn each_root_is_drawn_on_its_own() {
    let args = VerticalArgs { style: Style::Ascii, input: "# a\n# b".to_string(), width: None, spacing: 2 };
    let out = args.run().unwrap();
    assert_eq!(out, vec!["+---+\n| a |\n+---+".to_string(), "+---+\n| b |\n+---+".to_string()]);
}

#[test]
fn cell_reads_the_grid() {
    let forest = parse("# Root\n## Child 1\n## Child 2", None);
    let g = BoxDrawings::new(Style::Thin);
    let root = &forest[0];
    assert_eq!(root.cell(&g, 2, 0, 0), ' ');
    assert_eq!(root.cell(&g, 2, 0, 8), '┌');
    assert_eq!(root.cell(&g, 2, 1, 10), 'R');
    assert_eq!(root.cell(&g, 2, 3, 12), '┴');
    assert_eq!(root.cell(&g, 2, 3, 5), '┬');
    assert_eq!(root.cell(&g, 2, 5, 15), 'C');
    assert_eq!(root.cell(&g, 2, 6, 23), '┘');
    assert_eq!(root.cell(&g, 2, 5, 12), ' ');
}

#[test]
fn shallow_sibling_leaves_blank_rows() {
    let out = draw("# r\n## a\n### b\n## c", None, Style::Ascii, 1);
    let expected = [
        "   +---+   ",
        "   | r |   ",
        "   +---+   ",
        "  +--+--+  ",
        "+---+ +---+",
        "| a | | c |",
        "+---+ +---+",
        "  |        ",
        "+---+      ",
        "| b |      ",
        "+---+      ",
    ]
    .join("\n");
    assert_eq!(out, vec![expected]);
}

#[test]
fn try_render_draws_what_fits() {
    let node = TreeNode::leaf(vec!["hi".to_string()]);
    let g = BoxDrawings::new(Style::Ascii);
    assert_eq!(try_render(&node, &g, usize::MAX), Some("+----+\n| hi |\n+----+".to_string()));
    let pair = TreeNode { lines: vec!["p".to_string()], children: vec![TreeNode::leaf(vec!["a".to_string()]), TreeNode::leaf(vec!["b".to_string()])] };
    assert_eq!(try_render(&pair, &g, usize::MAX), None);
    assert_eq!(pair.measure(usize::MAX), None);
    assert_eq!(pair.measure_width(usize::MAX - 10), Some(usize::MAX));
    let args = VerticalArgs { style: Style::Ascii, input: "# p\n## a\n## b".to_string(), width: None, spacing: usize::MAX };
    assert_eq!(args.run(), None);
}

#[test]
fn node_without_lines_shows_one_blank_row() {
    let node = TreeNode { lines: Vec::new(), children: Vec::new() };
    let g = BoxDrawings::new(Style::Ascii);
    assert_eq!(render(&node, &g, 2), "+--+\n|  |\n+--+".to_string());
}

#[test]
fn listing_indents_children() {
    let forest = parse("# Root\nsecond line\n## Child 1\n### Grandchild\n## Child 2\n# Other", None);
    let lines = render_lines(&forest);
    assert_eq!(
        lines,
        vec![
            "- Root".to_string(),
            "  second line".to_string(),
            "  - Child 1".to_string(),
            "    - Grandchild".to_string(),
            "  - Child 2".to_string(),
            "- Other".to_string(),
        ]
    );
}

#[test]
fn commands_dispatch() {
    let h = Args { command: Command::Horizontal(HorizontalArgs { input: "# a\n## b".to_string() }) };
    assert_eq!(h.run(), Some(vec!["- a".to_string(), "  - b".to_string()]));
    let v = Args {
        command: Command::Vertical(VerticalArgs { style: Style::Rounded, input: "# a".to_string(), width: Some(3), spacing: 0 }),
    };
    assert_eq!(v.run(), Some(vec!["╭───╮\n│ a │\n╰───╯".to_string()]));
    let wide = HorizontalArgs { input: "# one two three".to_string() };
    assert_eq!(wide.run(), vec!["- one two three".to_string()]);
}
