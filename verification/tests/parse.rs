use astree::parser::{count_markers, parse, split_lines, trim_from};
use astree::text::{chars_of, string_of};
use astree::tree::tree_node::TreeNode;
use astree::wrap::{pack_words, shape, split_words};

fn chars(s: &str) -> Vec<char> {
    s.chars().collect()
}

fn count(node: &TreeNode) -> usize {
    1 + node.children.iter().map(count).sum::<usize>()
}

fn total(forest: &[TreeNode]) -> usize {
    forest.iter().map(count).sum()
}

#[test]
fn empty_text_gives_no_tree() {
    assert!(parse("", None).is_empty());
    assert!(parse("  \n\t\n\n", None).is_empty());
    assert!(parse("", Some(5)).is_empty());
}

#[test]
fn single_heading_gives_single_leaf() {
    let forest = parse("# Only", None);
    assert_eq!(forest.len(), 1);
    assert_eq!(forest[0].lines, vec!["Only".to_string()]);
    assert!(forest[0].children.is_empty());
}

#[test]
fn children_follow_source_order() {
    let forest = parse("# Root\n## Child 1\n## Child 2", None);
    assert_eq!(forest.len(), 1);
    let root = &forest[0];
    assert_eq!(root.lines, vec!["Root".to_string()]);
    assert_eq!(root.children.len(), 2);
    assert_eq!(root.children[0].lines, vec!["Child 1".to_string()]);
    assert_eq!(root.children[1].lines, vec!["Child 2".to_string()]);
    assert!(root.children[0].children.is_empty());
}

#[test]
fn each_top_level_heading_is_a_root() {
    let forest = parse("# A\n## A1\n# B\n# C\n## C1\n### C1a\n## C2", None);
    assert_eq!(forest.len(), 3);
    assert_eq!(forest[0].children.len(), 1);
    assert_eq!(forest[1].children.len(), 0);
    assert_eq!(forest[2].children.len(), 2);
    assert_eq!(forest[2].children[0].children[0].lines, vec!["C1a".to_string()]);
    assert_eq!(total(&forest), 7);
}

#[test]
fn heading_attaches_to_nearest_shallower_heading() {
    let forest = parse("# A\n### Deep\n## Mid\n#### Deeper", None);
    assert_eq!(forest.len(), 1);
    let a = &forest[0];
    assert_eq!(a.children.len(), 2);
    assert_eq!(a.children[0].lines, vec!["Deep".to_string()]);
    assert_eq!(a.children[1].lines, vec!["Mid".to_string()]);
    assert_eq!(a.children[1].children[0].lines, vec!["Deeper".to_string()]);
}

#[test]
fn deep_first_heading_is_a_root() {
    let forest = parse("## Late\n# Top", None);
    assert_eq!(forest.len(), 2);
    assert_eq!(forest[0].lines, vec!["Late".to_string()]);
    assert_eq!(forest[1].lines, vec!["Top".to_string()]);
}

#[test]
fn text_lines_continue_the_label() {
    let forest = parse("# Title\nmore text\n\n  and more  \n## Kid", None);
    assert_eq!(forest.len(), 1);
    assert_eq!(
        forest[0].lines,
        vec!["Title".to_string(), "more text".to_string(), "and more".to_string()]
    );
    assert_eq!(forest[0].children.len(), 1);
}

#[test]
fn text_without_heading_gives_one_implicit_root() {
    let forest = parse("just text\nand more", None);
    assert_eq!(forest.len(), 1);
    assert_eq!(forest[0].lines, vec!["just text".to_string(), "and more".to_string()]);
    assert!(forest[0].children.is_empty());
    let wrapped = parse("just text\nand more", Some(9));
    assert_eq!(wrapped.len(), 1);
    assert_eq!(wrapped[0].lines, vec!["just text".to_string(), "and more".to_string()]);
    let wide = parse("just text\nand more", Some(40));
    assert_eq!(wide[0].lines, vec!["just text and more".to_string()]);
}

#[test]
fn text_before_first_heading_makes_no_node() {
    let forest = parse("preface\n# One", None);
    assert_eq!(forest.len(), 1);
    assert_eq!(forest[0].lines, vec!["One".to_string()]);
}

#[test]
fn marker_without_separator_is_text() {
    let forest = parse("#hashtag\n#", None);
    assert_eq!(forest.len(), 1);
    assert_eq!(forest[0].lines, vec!["".to_string()]);
    let only = parse("#hashtag", None);
    assert_eq!(only.len(), 1);
    assert_eq!(only[0].lines, vec!["#hashtag".to_string()]);
}

#[test]
fn empty_heading_has_one_empty_line() {
    let forest = parse("#\n## \n", Some(4));
    assert_eq!(forest.len(), 1);
    assert_eq!(forest[0].lines, vec!["".to_string()]);
    assert_eq!(forest[0].children[0].lines, vec!["".to_string()]);
}

#[test]
fn node_count_equals_heading_count() {
    let text = "# a\n## b\ntext\n### c\n# d\n\n#### e\n## f\n";
    assert_eq!(total(&parse(text, None)), 6);
    assert_eq!(total(&parse(text, Some(1))), 6);
    assert_eq!(total(&parse("no heading", None)), 1);
    assert_eq!(total(&parse("", None)), 0);
}

#[test]
fn wrapping_packs_words_greedily() {
    let forest = parse("# Root\n## A rather long label here\n### Leaf", Some(8));
    let child = &forest[0].children[0];
    assert_eq!(
        child.lines,
        vec!["A rather".to_string(), "long".to_string(), "label".to_string(), "here".to_string()]
    );
    assert_eq!(child.children[0].lines, vec!["Leaf".to_string()]);
}

#[test]
fn long_word_keeps_its_own_line() {
    let ws = split_words(&chars("ab extraordinary cd ef"));
    let lines = pack_words(&ws, 5);
    assert_eq!(lines, vec![chars("ab"), chars("extraordinary"), chars("cd ef")]);
    let zero = pack_words(&ws, 0);
    assert_eq!(zero.len(), 4);
}

#[test]
fn wrapping_joins_lines_before_packing() {
    let lines = vec![chars("one two"), chars("three"), chars("four five six")];
    let out = shape(&lines, Some(9));
    assert_eq!(out, vec!["one two".to_string(), "three".to_string(), "four five".to_string(), "six".to_string()]);
    let out = shape(&lines, Some(13));
    assert_eq!(out, vec!["one two three".to_string(), "four five six".to_string()]);
    let kept = shape(&lines, None);
    assert_eq!(kept, vec!["one two".to_string(), "three".to_string(), "four five six".to_string()]);
}

#[test]
fn rewrapping_changes_nothing() {
    for width in [0usize, 1, 3, 5, 8, 13, 40] {
        let lines = vec![chars("the quick  brown fox"), chars("jumps over"), chars("a lazy dog")];
        let once = shape(&lines, Some(width));
        let again_in: Vec<Vec<char>> = once.iter().map(|s| chars(s)).collect();
        let twice = shape(&again_in, Some(width));
        assert_eq!(once, twice);
    }
}

#[test]
fn words_are_runs_without_separators() {
    assert_eq!(split_words(&chars("  a\tbc \n d  ")), vec![chars("a"), chars("bc"), chars("d")]);
    assert!(split_words(&chars(" \t ")).is_empty());
    assert!(split_words(&chars("")).is_empty());
}

#[test]
fn lines_are_cut_at_line_feeds() {
    assert_eq!(split_lines(&chars("a\n\nb")), vec![chars("a"), chars(""), chars("b")]);
    assert_eq!(split_lines(&chars("")), vec![chars("")]);
    assert_eq!(split_lines(&chars("x\n")), vec![chars("x"), chars("")]);
}

#[test]
fn markers_and_trimming() {
    assert_eq!(count_markers(&chars("### x")), 3);
    assert_eq!(count_markers(&chars("x#")), 0);
    assert_eq!(count_markers(&chars("##")), 2);
    assert_eq!(trim_from(&chars("##  a b \t"), 2), chars("a b"));
    assert_eq!(trim_from(&chars("   "), 0), chars(""));
    assert_eq!(trim_from(&chars("abc"), 3), chars(""));
    assert_eq!(trim_from(&chars("x"), 0), chars("x"));
}

#[test]
fn characters_round_trip() {
    let s = "héllo ┌─┐ wörld";
    let cs = chars_of(s);
    assert_eq!(cs.len(), 15);
    assert_eq!(cs[1], 'é');
    assert_eq!(string_of(&cs), s.to_string());
    assert_eq!(string_of(&Vec::new()), String::new());
}

#[test]
fn non_ascii_labels_parse_by_character() {
    let forest = parse("# Wörter über Bäume", Some(6));
    assert_eq!(forest[0].lines, vec!["Wörter".to_string(), "über".to_string(), "Bäume".to_string()]);
}
