use astree::btreemap_to_node;
use astree::hierarchy::{find_entry, outline_text};

fn entry(name: &str, children: &[&str]) -> (String, Vec<String>) {
    (name.to_string(), children.iter().map(|c| c.to_string()).collect())
}

#[test]
fn table_is_written_depth_first() {
    let table = vec![entry("A", &["B", "C"]), entry("B", &["D"])];
    assert_eq!(outline_text(&table, &"A".to_string()), "# A\n## B\n### D\n## C\n");
    let forest = btreemap_to_node(&table, &"A".to_string());
    assert_eq!(forest.len(), 1);
    assert_eq!(forest[0].lines, vec!["A".to_string()]);
    assert_eq!(forest[0].children.len(), 2);
    assert_eq!(forest[0].children[0].children[0].lines, vec!["D".to_string()]);
    assert_eq!(forest[0].children[1].lines, vec!["C".to_string()]);
}

#[test]
fn cycle_is_written_once() {
    let table = vec![entry("A", &["B"]), entry("B", &["A", "C"]), entry("C", &["B"])];
    assert_eq!(outline_text(&table, &"A".to_string()), "# A\n## B\n### C\n");
    assert_eq!(outline_text(&table, &"B".to_string()), "# B\n## A\n## C\n");
    let own = vec![entry("A", &["A"])];
    assert_eq!(outline_text(&own, &"A".to_string()), "# A\n");
}

#[test]
fn root_without_entry_stands_alone() {
    let table = vec![entry("A", &["B"])];
    assert_eq!(outline_text(&table, &"X".to_string()), "# X\n");
    assert_eq!(outline_text(&Vec::new(), &"X".to_string()), "# X\n");
    let forest = btreemap_to_node(&table, &"X".to_string());
    assert_eq!(forest.len(), 1);
    assert!(forest[0].children.is_empty());
}

#[test]
fn plain_children_repeat_and_entries_do_not() {
    let table = vec![entry("A", &["x", "x", "B", "B"]), entry("B", &["c"])];
    assert_eq!(outline_text(&table, &"A".to_string()), "# A\n## x\n## x\n## B\n### c\n");
}

#[test]
fn first_entry_of_a_name_counts() {
    let table = vec![entry("A", &["one"]), entry("A", &["two"])];
    assert_eq!(find_entry(&table, &"A".to_string()), Some(0));
    assert_eq!(find_entry(&table, &"B".to_string()), None);
    assert_eq!(outline_text(&table, &"A".to_string()), "# A\n## one\n");
}

#[test]
fn deep_chain_nests_to_its_length() {
    let table = vec![entry("a", &["b"]), entry("b", &["c"]), entry("c", &["d"]), entry("d", &["e"])];
    assert_eq!(outline_text(&table, &"a".to_string()), "# a\n## b\n### c\n#### d\n##### e\n");
    let forest = btreemap_to_node(&table, &"a".to_string());
    let mut node = &forest[0];
    let mut depth = 1;
    while let Some(child) = node.children.first() {
        node = child;
        depth += 1;
    }
    assert_eq!(depth, 5);
}
