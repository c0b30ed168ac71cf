//! From a table of names and their children to a forest.
//!
//! The table is a list of entries, each a name with the names of its
//! children; where a name has several entries the first one counts. The
//! table is written out as heading-marked text, depth first from a root
//! name, and that text is parsed. An entry is written where it is first
//! reached and nowhere else, so a table with cycles gives a finite text.

use vstd::prelude::*;
use crate::parser::{parse, parsed, parsed_count};
use crate::text::{append_chars, chars_of, string_of, views_of};
use crate::tree::tree_node::{forest_view, trees_size, TreeNode};

verus! {

/// The mathematical value of a table: names and children as character
/// sequences.
pub open spec fn table_of(h: Seq<(String, Vec<String>)>) -> Seq<(Seq<char>, Seq<Seq<char>>)> {
    Seq::new(h.len(), |i: int| (h[i].0@, views_of(h[i].1@)))
}

/// Index of the first entry from `i` on that is named `name`.
pub open spec fn find_from(t: Seq<(Seq<char>, Seq<Seq<char>>)>, name: Seq<char>, i: nat) -> Option<
    nat,
>
    decreases t.len() - i,
{
    if i >= t.len() {
        None
    } else if t[i as int].0 == name {
        Some(i)
    } else {
        find_from(t, name, i + 1)
    }
}

/// One heading line: the markers, a blank, the name and a line feed.
pub open spec fn heading_line(markers: Seq<char>, name: Seq<char>) -> Seq<char> {
    markers + seq![' '] + name + seq!['\n']
}

/// Number of entries not yet written.
pub open spec fn unwritten(written: Seq<bool>) -> nat
    decreases written.len(),
{
    if written.len() == 0 {
        0
    } else {
        unwritten(written.drop_last()) + if written.last() {
            0nat
        } else {
            1nat
        }
    }
}

/// The text for entry `idx` and what lies below it, and the entries written
/// after it. An entry that is written already gives no text. `depth_left`
/// bounds the nesting below this entry; the number of unwritten entries is
/// always enough.
pub open spec fn walk(
    t: Seq<(Seq<char>, Seq<Seq<char>>)>,
    idx: nat,
    markers: Seq<char>,
    written: Seq<bool>,
    depth_left: nat,
) -> (Seq<char>, Seq<bool>)
    decreases depth_left, 0nat,
{
    if depth_left == 0 || idx >= t.len() || written.len() != t.len() || written[idx as int] {
        (Seq::empty(), written)
    } else {
        let below = walk_children(
            t,
            idx,
            0,
            markers.push('#'),
            written.update(idx as int, true),
            (depth_left - 1) as nat,
        );
        (heading_line(markers, t[idx as int].0) + below.0, below.1)
    }
}

/// The text for the children of entry `idx` from child `k` on: a child with
/// an entry of its own is walked, any other child gives one heading line.
pub open spec fn walk_children(
    t: Seq<(Seq<char>, Seq<Seq<char>>)>,
    idx: nat,
    k: nat,
    markers: Seq<char>,
    written: Seq<bool>,
    depth_left: nat,
) -> (Seq<char>, Seq<bool>)
    decreases depth_left, 1 + t[idx as int].1.len() - k,
{
    if idx >= t.len() || k >= t[idx as int].1.len() {
        (Seq::empty(), written)
    } else {
        let child = t[idx as int].1[k as int];
        let here = match find_from(t, child, 0) {
            Some(j) => walk(t, j, markers, written, depth_left),
            None => (heading_line(markers, child), written),
        };
        let rest = walk_children(t, idx, k + 1, markers, here.1, depth_left);
        (here.0 + rest.0, rest.1)
    }
}

/// The heading-marked text of the table, from `root` down. A root without
/// an entry gives its own heading line only.
pub open spec fn outline(t: Seq<(Seq<char>, Seq<Seq<char>>)>, root: Seq<char>) -> Seq<char> {
    match find_from(t, root, 0) {
        Some(idx) => walk(t, idx, seq!['#'], Seq::new(t.len(), |i: int| false), t.len()).0,
        None => heading_line(seq!['#'], root),
    }
}

/// Writing an entry leaves one entry less to write.
pub proof fn lemma_unwritten_update(written: Seq<bool>, idx: int)
    requires
        0 <= idx < written.len(),
        !written[idx],
    ensures
        unwritten(written.update(idx, true)) + 1 == unwritten(written),
    decreases written.len(),
{
    if idx == written.len() - 1 {
        assert(written.update(idx, true).drop_last() =~= written.drop_last());
    } else {
        lemma_unwritten_update(written.drop_last(), idx);
        assert(written.update(idx, true).drop_last() =~= written.drop_last().update(idx, true));
    }
}

/// Of `n` entries none of which is written, `n` are left to write.
pub proof fn lemma_unwritten_fresh(n: nat)
    ensures
        unwritten(Seq::new(n, |i: int| false)) == n,
    decreases n,
{
    if n > 0 {
        lemma_unwritten_fresh((n - 1) as nat);
        assert(Seq::new(n, |i: int| false).drop_last() =~= Seq::new((n - 1) as nat, |i: int| false));
    }
}

/// A walk writes entries and never takes a mark back.
pub proof fn lemma_walk_writes(
    t: Seq<(Seq<char>, Seq<Seq<char>>)>,
    idx: nat,
    markers: Seq<char>,
    written: Seq<bool>,
    depth_left: nat,
)
    requires
        written.len() == t.len(),
    ensures
        walk(t, idx, markers, written, depth_left).1.len() == t.len(),
        unwritten(walk(t, idx, markers, written, depth_left).1) <= unwritten(written),
    decreases depth_left, 0nat,
{
    if depth_left > 0 && idx < t.len() && !written[idx as int] {
        lemma_unwritten_update(written, idx as int);
        lemma_walk_children_writes(
            t,
            idx,
            0,
            markers.push('#'),
            written.update(idx as int, true),
            (depth_left - 1) as nat,
        );
    }
}

/// The same of the walk through the children of an entry.
pub proof fn lemma_walk_children_writes(
    t: Seq<(Seq<char>, Seq<Seq<char>>)>,
    idx: nat,
    k: nat,
    markers: Seq<char>,
    written: Seq<bool>,
    depth_left: nat,
)
    requires
        written.len() == t.len(),
    ensures
        walk_children(t, idx, k, markers, written, depth_left).1.len() == t.len(),
        unwritten(walk_children(t, idx, k, markers, written, depth_left).1) <= unwritten(written),
    decreases depth_left, 1 + t[idx as int].1.len() - k,
{
    if idx < t.len() && k < t[idx as int].1.len() {
        let child = t[idx as int].1[k as int];
        let here = match find_from(t, child, 0) {
            Some(j) => walk(t, j, markers, written, depth_left),
            None => (heading_line(markers, child), written),
        };
        match find_from(t, child, 0) {
            Some(j) => {
                lemma_walk_writes(t, j, markers, written, depth_left);
            },
            None => {},
        }
        lemma_walk_children_writes(t, idx, k + 1, markers, here.1, depth_left);
    }
}

/// The bound on the nesting does not show in the text: any two bounds that
/// are at least the number of unwritten entries give the same walk.
pub proof fn lemma_walk_bound(
    t: Seq<(Seq<char>, Seq<Seq<char>>)>,
    idx: nat,
    markers: Seq<char>,
    written: Seq<bool>,
    a: nat,
    b: nat,
)
    requires
        written.len() == t.len(),
        unwritten(written) <= a,
        unwritten(written) <= b,
    ensures
        walk(t, idx, markers, written, a) == walk(t, idx, markers, written, b),
    decreases a, 0nat,
{
    if idx < t.len() && !written[idx as int] {
        lemma_unwritten_update(written, idx as int);
        lemma_walk_children_bound(
            t,
            idx,
            0,
            markers.push('#'),
            written.update(idx as int, true),
            (a - 1) as nat,
            (b - 1) as nat,
        );
    }
}

/// The same of the walk through the children of an entry.
pub proof fn lemma_walk_children_bound(
    t: Seq<(Seq<char>, Seq<Seq<char>>)>,
    idx: nat,
    k: nat,
    markers: Seq<char>,
    written: Seq<bool>,
    a: nat,
    b: nat,
)
    requires
        written.len() == t.len(),
        unwritten(written) <= a,
        unwritten(written) <= b,
    ensures
        walk_children(t, idx, k, markers, written, a) == walk_children(
            t,
            idx,
            k,
            markers,
            written,
            b,
        ),
    decreases a, 1 + t[idx as int].1.len() - k,
{
    if idx < t.len() && k < t[idx as int].1.len() {
        let child = t[idx as int].1[k as int];
        let here = match find_from(t, child, 0) {
            Some(j) => walk(t, j, markers, written, a),
            None => (heading_line(markers, child), written),
        };
        match find_from(t, child, 0) {
            Some(j) => {
                lemma_walk_bound(t, j, markers, written, a, b);
                lemma_walk_writes(t, j, markers, written, a);
            },
            None => {},
        }
        lemma_walk_children_bound(t, idx, k + 1, markers, here.1, a, b);
    }
}

/// Looks `name` up in the table.
pub fn find_entry(hierarchy: &Vec<(String, Vec<String>)>, name: &String) -> (r: Option<usize>)
    ensures
        match r {
            Some(j) => j < hierarchy@.len() && find_from(table_of(hierarchy@), name@, 0) == Some(
                j as nat,
            ),
            None => find_from(table_of(hierarchy@), name@, 0) is None,
        },
{
    let n: usize = hierarchy.len();
    let mut i: usize = 0;
    while i < n
        invariant
            i <= n,
            n == hierarchy@.len(),
            find_from(table_of(hierarchy@), name@, 0) == find_from(
                table_of(hierarchy@),
                name@,
                i as nat,
            ),
        decreases n - i,
    {
        if hierarchy[i].0 == *name {
            return Some(i);
        }
        i += 1;
    }
    None
}

/// Appends one heading line to `out`.
fn push_heading(out: &mut Vec<char>, markers: &Vec<char>, name: &String)
    ensures
        final(out)@ == old(out)@ + heading_line(markers@, name@),
{
    append_chars(out, markers);
    out.push(' ');
    let label = chars_of(name.as_str());
    append_chars(out, &label);
    out.push('\n');
    proof {
        assert(out@ =~= old(out)@ + heading_line(markers@, name@));
    }
}

/// Appends to `output` the text for entry `idx` and what lies below it,
/// and marks in `written` what it wrote.
fn btreemap_to_string(
    hierarchy: &Vec<(String, Vec<String>)>,
    idx: usize,
    markers: &Vec<char>,
    written: &mut Vec<bool>,
    output: &mut Vec<char>,
    Ghost(depth_left): Ghost<nat>,
)
    requires
        idx < hierarchy@.len(),
        old(written)@.len() == hierarchy@.len(),
        unwritten(old(written)@) <= depth_left,
    ensures
        final(written)@.len() == hierarchy@.len(),
        unwritten(final(written)@) <= unwritten(old(written)@),
        final(output)@ == old(output)@ + walk(
            table_of(hierarchy@),
            idx as nat,
            markers@,
            old(written)@,
            depth_left,
        ).0,
        final(written)@ == walk(
            table_of(hierarchy@),
            idx as nat,
            markers@,
            old(written)@,
            depth_left,
        ).1,
    decreases depth_left,
{
    let ghost t = table_of(hierarchy@);
    if written[idx] {
        proof {
            assert(output@ + Seq::<char>::empty() =~= output@);
        }
        return ;
    }
    proof {
        lemma_unwritten_update(written@, idx as int);
    }
    written.set(idx, true);
    push_heading(output, markers, &hierarchy[idx].0);
    let mut deeper: Vec<char> = Vec::new();
    append_chars(&mut deeper, markers);
    deeper.push('#');
    proof {
        assert(deeper@ =~= markers@.push('#'));
    }
    let ghost left = (depth_left - 1) as nat;
    let ghost start = written@;
    let ghost base = output@;
    let children = &hierarchy[idx].1;
    let n: usize = children.len();
    let mut k: usize = 0;
    while k < n
        invariant
            k <= n,
            idx < hierarchy@.len(),
            n == t[idx as int].1.len(),
            children@ == hierarchy@[idx as int].1@,
            t == table_of(hierarchy@),
            deeper@ == markers@.push('#'),
            written@.len() == hierarchy@.len(),
            unwritten(written@) <= left,
            unwritten(written@) <= unwritten(start),
            unwritten(start) + 1 == unwritten(old(written)@),
            left + 1 == depth_left,
            base + walk_children(t, idx as nat, 0, deeper@, start, left).0 == output@
                + walk_children(t, idx as nat, k as nat, deeper@, written@, left).0,
            walk_children(t, idx as nat, 0, deeper@, start, left).1 == walk_children(
                t,
                idx as nat,
                k as nat,
                deeper@,
                written@,
                left,
            ).1,
        decreases n - k,
    {
        let ghost before_out = output@;
        let ghost before_written = written@;
        let child = &children[k];
        match find_entry(hierarchy, child) {
            Some(j) => {
                btreemap_to_string(hierarchy, j, &deeper, written, output, Ghost(left));
            },
            None => {
                push_heading(output, &deeper, child);
            },
        }
        proof {
            let here = match find_from(t, child@, 0) {
                Some(j) => walk(t, j, deeper@, before_written, left),
                None => (heading_line(deeper@, child@), before_written),
            };
            let rest = walk_children(t, idx as nat, (k + 1) as nat, deeper@, here.1, left);
            assert(t[idx as int].1[k as int] == child@);
            assert(output@ == before_out + here.0);
            assert(written@ == here.1);
            assert((before_out + here.0) + rest.0 =~= before_out + (here.0 + rest.0));
        }
        k += 1;
    }
    proof {
        assert(output@ + Seq::<char>::empty() =~= output@);
        let below = walk_children(t, idx as nat, 0, deeper@, start, left);
        assert((old(output)@ + heading_line(markers@, t[idx as int].0)) + below.0 =~= old(output)@
            + (heading_line(markers@, t[idx as int].0) + below.0));
    }
}

/// The heading-marked text of the table, from `root` down.
pub fn outline_text(hierarchy: &Vec<(String, Vec<String>)>, root: &String) -> (text: String)
    ensures
        text@ == outline(table_of(hierarchy@), root@),
{
    let mut output: Vec<char> = Vec::new();
    let mut markers: Vec<char> = Vec::new();
    markers.push('#');
    proof {
        assert(markers@ =~= seq!['#']);
    }
    match find_entry(hierarchy, root) {
        Some(idx) => {
            let mut written: Vec<bool> = Vec::new();
            let n: usize = hierarchy.len();
            let mut i: usize = 0;
            while i < n
                invariant
                    i <= n,
                    n == hierarchy@.len(),
                    written@ == Seq::new(i as nat, |j: int| false),
                decreases n - i,
            {
                written.push(false);
                proof {
                    assert(written@ =~= Seq::new((i + 1) as nat, |j: int| false));
                }
                i += 1;
            }
            proof {
                lemma_unwritten_fresh(n as nat);
            }
            btreemap_to_string(hierarchy, idx, &markers, &mut written, &mut output, Ghost(n as nat));
            proof {
                assert(Seq::<char>::empty() + outline(table_of(hierarchy@), root@) =~= outline(
                    table_of(hierarchy@),
                    root@,
                ));
            }
        },
        None => {
            push_heading(&mut output, &markers, root);
            proof {
                assert(Seq::<char>::empty() + outline(table_of(hierarchy@), root@) =~= outline(
                    table_of(hierarchy@),
                    root@,
                ));
            }
        },
    }
    string_of(&output)
}

/// The forest of the table, from `root` down: the forest that the table's
/// heading-marked text parses to.
pub fn btreemap_to_node(hierarchy: &Vec<(String, Vec<String>)>, root: &String) -> (forest: Vec<
    TreeNode,
>)
    ensures
        forest_view(forest@) == parsed(outline(table_of(hierarchy@), root@), None),
        trees_size(forest_view(forest@), forest_view(forest@).len()) == parsed_count(
            outline(table_of(hierarchy@), root@),
        ),
        forall|i: int| 0 <= i < forest@.len() ==> (#[trigger] forest@[i]).wf(),
{
    let text = outline_text(hierarchy, root);
    parse(text.as_str(), None)
}

} // verus!
