//! Drawing of a parsed property as an indented tree, one node per line.
//!
//! A node's line starts with one lane of four characters for each of its
//! ancestors below the root (`|   ` where that ancestor has a later
//! sibling, four blanks where it has none), then `+-> `, then the node's
//! label. The root has no prefix.
use vstd::prelude::*;

verus! {

/// A node of a syntax tree: what its label prints as, and its children.
pub struct SyntaxTree {
    pub label: String,
    pub children: Vec<SyntaxTree>,
}

/// The lanes drawn for the ancestors whose continuation flags are `flags`.
pub open spec fn lanes(flags: Seq<bool>) -> Seq<char>
    decreases flags.len(),
{
    if flags.len() == 0 {
        Seq::empty()
    } else {
        lanes(flags.drop_last()) + if flags.last() {
            seq!['|', ' ', ' ', ' ']
        } else {
            seq![' ', ' ', ' ', ' ']
        }
    }
}

/// What stands before the label of a node reached through `crossings`: one
/// flag per edge from the root, true where the edge's child has a later
/// sibling.
pub open spec fn gutter(crossings: Seq<bool>) -> Seq<char> {
    if crossings.len() == 0 {
        Seq::empty()
    } else {
        lanes(crossings.drop_last()) + seq!['+', '-', '>', ' ']
    }
}

/// The text drawn for `node` and everything below it.
pub open spec fn rendered(node: SyntaxTree, crossings: Seq<bool>) -> Seq<char>
    decreases node, 1int, 0int,
{
    gutter(crossings) + node.label@ + seq!['\n'] + rendered_children(node, crossings, 0)
}

/// The text drawn for the children of `node` from the `i`-th on.
pub open spec fn rendered_children(node: SyntaxTree, crossings: Seq<bool>, i: int) -> Seq<char>
    decreases node, 0int, node.children@.len() - i,
{
    if 0 <= i < node.children@.len() {
        rendered(node.children@[i], crossings.push(i < node.children@.len() - 1))
            + rendered_children(node, crossings, i + 1)
    } else {
        Seq::empty()
    }
}

/// Appends the lanes for `flags[..n]` to `out`.
fn append_lanes(flags: &Vec<bool>, n: usize, out: &mut String)
    requires
        n <= flags.len(),
    ensures
        final(out)@ == old(out)@ + lanes(flags@.take(n as int)),
{
    let mut i: usize = 0;
    while i < n
        invariant
            i <= n <= flags.len(),
            out@ == old(out)@ + lanes(flags@.take(i as int)),
        decreases n - i,
    {
        assert(flags@.take(i + 1).drop_last() == flags@.take(i as int));
        if flags[i] {
            proof {
                reveal_strlit("|   ");
            }
            out.append("|   ");
        } else {
            proof {
                reveal_strlit("    ");
            }
            out.append("    ");
        }
        i = i + 1;
    }
}

/// Appends the drawing of `node`, reached through `crossings`, to `out`.
fn render_into(node: &SyntaxTree, crossings: &mut Vec<bool>, out: &mut String)
    ensures
        final(out)@ == old(out)@ + rendered(*node, old(crossings)@),
        final(crossings)@ == old(crossings)@,
    decreases node,
{
    let ghost start = out@;
    let depth = crossings.len();
    if depth > 0 {
        append_lanes(crossings, depth - 1, out);
        proof {
            reveal_strlit("+-> ");
            assert(crossings@.take(depth - 1) == crossings@.drop_last());
        }
        out.append("+-> ");
    }
    out.append(node.label.as_str());
    proof {
        reveal_strlit("\n");
    }
    out.append("\n");
    let ghost head = out@;
    assert(head == start + gutter(crossings@) + node.label@ + seq!['\n']);
    let n = node.children.len();
    let mut i: usize = 0;
    while i < n
        invariant
            n == node.children@.len(),
            i <= n,
            crossings@ == old(crossings)@,
            out@ + rendered_children(*node, crossings@, i as int) == head + rendered_children(
                *node,
                crossings@,
                0,
            ),
        decreases n - i,
    {
        let ghost before = out@;
        let ghost c0 = crossings@;
        crossings.push(i + 1 < n);
        render_into(&node.children[i], crossings, out);
        crossings.pop();
        proof {
            assert(crossings@ =~= c0);
            let c = crossings@;
            assert(c.push(i < n - 1) == c.push(i + 1 < n));
            assert(rendered_children(*node, c, i as int) == rendered(
                node.children@[i as int],
                c.push(i < n - 1),
            ) + rendered_children(*node, c, i + 1));
            let drawn = rendered(node.children@[i as int], c.push(i + 1 < n));
            assert(out@ == before + drawn);
            assert((before + drawn) + rendered_children(*node, c, i + 1) =~= before + (drawn
                + rendered_children(*node, c, i + 1)));
            assert(out@ + rendered_children(*node, c, i + 1) == before + rendered_children(
                *node,
                c,
                i as int,
            ));
        }
        i = i + 1;
    }
}

/// Draws `node` as the root of a tree: its label on the first line, then
/// each child below it, indented as the module documentation describes.
pub fn render_tree(node: &SyntaxTree) -> (out: String)
    ensures
        out@ == rendered(*node, Seq::empty()),
{
    let mut out = String::new();
    let mut crossings: Vec<bool> = Vec::new();
    render_into(node, &mut crossings, &mut out);
    assert(out@ == Seq::<char>::empty() + rendered(*node, Seq::empty()));
    out
}

} // verus!
